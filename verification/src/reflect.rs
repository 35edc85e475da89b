//! Reading decoded messages and their descriptors into the library's model
//! ([`Schema`], [`MessageValue`]).
//!
//! The descriptor pool of a message gives the schema: its message types in
//! the pool's order, its enum types, and for each field its name, number,
//! kind, cardinality and default. A decoded message gives, field by field,
//! the value of each field that is set.

use vstd::prelude::*;

use prost_reflect::{
    Cardinality as ReflectCardinality, DescriptorPool, DynamicMessage, EnumDescriptor,
    FieldDescriptor, Kind, MessageDescriptor, OneofDescriptor, ReflectMessage, Value,
};

use serde_json::Number;

use crate::descriptor_pool::{pool_all_message_names, pool_get_message, pool_message_names};
use crate::error::ProtoDuckError;
use crate::schema::{
    Cardinality, EnumSchema, EnumValueSchema, FieldKind, FieldSchema, MessageSchema, OneofSchema,
    Schema,
};
use crate::value::{lemma_message_view, value_ok, MapKey, MessageValue, ProtoValue, ValueView};

verus! {

/// A field's kind as `prost_reflect` gives it, with the descriptor of the
/// type for enum and message kinds.
enum KindRef {
    Double,
    Float,
    Int64,
    Uint64,
    Int32,
    Fixed64,
    Fixed32,
    Bool,
    String,
    Bytes,
    Uint32,
    Sfixed32,
    Sfixed64,
    Sint32,
    Sint64,
    Enum(EnumDescriptor),
    Message(MessageDescriptor),
}

/// One level of a `prost_reflect` value.
enum ValueShape<'a> {
    Bool(bool),
    I32(i32),
    I64(i64),
    U32(u32),
    U64(u64),
    /// A float; its texts are read with [`float_texts`].
    Float,
    String(String),
    Bytes(Vec<u8>),
    EnumNumber(i32),
    Message(&'a DynamicMessage),
    List(&'a Vec<Value>),
    /// A map; its entries are read with [`map_entries`].
    Entries,
}

/// `DescriptorPool::all_enums`: the pool's enum descriptors.
#[verifier::external_body]
fn pool_enums(pool: &DescriptorPool) -> (r: Vec<EnumDescriptor>) {
    pool.all_enums().collect()
}

/// `MessageDescriptor::parent_pool`, cloned.
#[verifier::external_body]
fn message_pool(m: &MessageDescriptor) -> (r: DescriptorPool) {
    m.parent_pool().clone()
}

/// `MessageDescriptor::name`: the short name of the type.
#[verifier::external_body]
fn message_name(m: &MessageDescriptor) -> (r: String) {
    m.name().to_string()
}

/// `MessageDescriptor::full_name`: the name of the type with its package and
/// enclosing types.
#[verifier::external_body]
fn message_full_name(m: &MessageDescriptor) -> (r: String) {
    m.full_name().to_string()
}

/// `MessageDescriptor::fields`, in declaration order.
#[verifier::external_body]
fn message_fields(m: &MessageDescriptor) -> (r: Vec<FieldDescriptor>) {
    m.fields().collect()
}

/// `MessageDescriptor::oneofs`, synthetic ones included.
#[verifier::external_body]
fn message_oneofs(m: &MessageDescriptor) -> (r: Vec<OneofDescriptor>) {
    m.oneofs().collect()
}

/// `FieldDescriptor::name`.
#[verifier::external_body]
fn field_name(f: &FieldDescriptor) -> (r: String) {
    f.name().to_string()
}

/// `FieldDescriptor::number`.
#[verifier::external_body]
fn field_number(f: &FieldDescriptor) -> (r: u32) {
    f.number()
}

/// `FieldDescriptor::kind`, variant by variant.
#[verifier::external_body]
fn field_kind(f: &FieldDescriptor) -> (r: KindRef) {
    match f.kind() {
        Kind::Double => KindRef::Double, Kind::Float => KindRef::Float,
        Kind::Int64 => KindRef::Int64, Kind::Uint64 => KindRef::Uint64,
        Kind::Int32 => KindRef::Int32, Kind::Fixed64 => KindRef::Fixed64,
        Kind::Fixed32 => KindRef::Fixed32, Kind::Bool => KindRef::Bool,
        Kind::String => KindRef::String, Kind::Bytes => KindRef::Bytes,
        Kind::Uint32 => KindRef::Uint32, Kind::Sfixed32 => KindRef::Sfixed32,
        Kind::Sfixed64 => KindRef::Sfixed64, Kind::Sint32 => KindRef::Sint32,
        Kind::Sint64 => KindRef::Sint64, Kind::Enum(e) => KindRef::Enum(e),
        Kind::Message(m) => KindRef::Message(m),
    }
}

/// `FieldDescriptor::cardinality`, variant by variant.
#[verifier::external_body]
fn field_cardinality(f: &FieldDescriptor) -> (r: Cardinality) {
    match f.cardinality() {
        ReflectCardinality::Optional => Cardinality::Optional,
        ReflectCardinality::Required => Cardinality::Required,
        ReflectCardinality::Repeated => Cardinality::Repeated,
    }
}

/// `FieldDescriptor::is_map`.
#[verifier::external_body]
fn field_is_map(f: &FieldDescriptor) -> (r: bool) {
    f.is_map()
}

/// `FieldDescriptor::default_value`: the value an unset field reads as (the
/// declared default where there is one).
#[verifier::external_body]
fn field_default_value(f: &FieldDescriptor) -> (r: Value) {
    f.default_value()
}

/// `OneofDescriptor::name`.
#[verifier::external_body]
fn oneof_name(o: &OneofDescriptor) -> (r: String) {
    o.name().to_string()
}

/// `OneofDescriptor::fields`, each given by its number.
#[verifier::external_body]
fn oneof_field_numbers(o: &OneofDescriptor) -> (r: Vec<u32>) {
    o.fields().map(|f| f.number()).collect()
}

/// `EnumDescriptor::name`.
#[verifier::external_body]
fn enum_name(e: &EnumDescriptor) -> (r: String) {
    e.name().to_string()
}

/// `EnumDescriptor::full_name`.
#[verifier::external_body]
fn enum_full_name(e: &EnumDescriptor) -> (r: String) {
    e.full_name().to_string()
}

/// `EnumDescriptor::default_value`, by its number.
#[verifier::external_body]
fn enum_default_number(e: &EnumDescriptor) -> (r: i32) {
    e.default_value().number()
}

/// `EnumDescriptor::values`, each given by its name and number.
#[verifier::external_body]
fn enum_values(e: &EnumDescriptor) -> (r: Vec<(String, i32)>) {
    e.values().map(|v| (v.name().to_string(), v.number())).collect()
}

/// `ReflectMessage::descriptor` of a decoded message.
#[verifier::external_body]
fn dynamic_descriptor(m: &DynamicMessage) -> (r: MessageDescriptor) {
    m.descriptor()
}

/// `DynamicMessage::has_field`.
#[verifier::external_body]
fn dynamic_has_field(m: &DynamicMessage, f: &FieldDescriptor) -> (r: bool) {
    m.has_field(f)
}

/// `DynamicMessage::get_field`, owned.
#[verifier::external_body]
fn dynamic_get_field(m: &DynamicMessage, f: &FieldDescriptor) -> (r: Value) {
    m.get_field(f).into_owned()
}

/// The variant of a `prost_reflect::Value` and what it holds; a float or a
/// map gives a marker only (see [`float_texts`] and [`map_entries`]).
#[verifier::external_body]
fn value_shape<'a>(v: &'a Value) -> (r: ValueShape<'a>) {
    match v {
        Value::Bool(b) => ValueShape::Bool(*b), Value::I32(i) => ValueShape::I32(*i),
        Value::I64(i) => ValueShape::I64(*i), Value::U32(u) => ValueShape::U32(*u),
        Value::U64(u) => ValueShape::U64(*u), Value::EnumNumber(n) => ValueShape::EnumNumber(*n),
        Value::F32(_) | Value::F64(_) => ValueShape::Float,
        Value::String(s) => ValueShape::String(s.clone()),
        Value::Bytes(b) => ValueShape::Bytes(b.to_vec()),
        Value::Message(m) => ValueShape::Message(m), Value::List(l) => ValueShape::List(l),
        Value::Map(_) => ValueShape::Entries,
    }
}

/// The texts of a float value (none for another value): its `Display` text,
/// and, when it is finite, the text of the JSON number that
/// `serde_json::Number::from_f64` makes of it.
#[verifier::external_body]
fn float_texts(v: &Value) -> (r: Option<(String, Option<String>)>) {
    match v {
        Value::F32(x) => Some((x.to_string(), Number::from_f64((*x).into()).map(|n| n.to_string()))),
        Value::F64(x) => Some((x.to_string(), Number::from_f64(*x).map(|n| n.to_string()))),
        _ => None,
    }
}

/// The entries of a `Value::Map` (none for another value), in the order in
/// which its `HashMap` walks them, each key converted variant by variant.
#[verifier::external_body]
fn map_entries<'a>(v: &'a Value) -> (r: Vec<(MapKey, &'a Value)>) {
    match v {
        Value::Map(m) => m.iter().map(|(k, x)| (match k {
            prost_reflect::MapKey::Bool(b) => MapKey::Bool(*b),
            prost_reflect::MapKey::I32(i) => MapKey::I32(*i),
            prost_reflect::MapKey::I64(i) => MapKey::I64(*i),
            prost_reflect::MapKey::U32(u) => MapKey::U32(*u),
            prost_reflect::MapKey::U64(u) => MapKey::U64(*u),
            prost_reflect::MapKey::String(s) => MapKey::String(s.clone()),
        }, x)).collect(),
        _ => Vec::new(),
    }
}

/// The deepest nesting of values (a message in a field, an item in a list or
/// map) that is read into the model. Protobuf decoding refuses messages
/// nested more than 100 deep, and each message level adds at most two value
/// levels, so every decoded message fits well within it.
pub const NESTING_LIMIT: u32 = 1000;

/// A conversion error with the given explanation.
fn conversion_error(why: &str) -> (r: ProtoDuckError)
    ensures
        r@ == crate::error::ProtoDuckErrorView::ConversionError(why@),
{
    ProtoDuckError::ConversionError(crate::text::string_from_chars(
        crate::text::str_to_chars(why).as_slice(),
    ))
}

/// The first index at which `names` holds `name`.
fn find_name(names: &Vec<String>, name: &String) -> (r: Option<usize>)
    ensures
        r matches Some(i) ==> i < names@.len() && names@[i as int]@ == name@,
        r matches Some(i) ==> forall|j: int| 0 <= j < i ==> #[trigger] names@[j]@ != name@,
        r is None ==> forall|j: int| 0 <= j < names@.len() ==> #[trigger] names@[j]@ != name@,
{
    let mut i: usize = 0;
    while i < names.len()
        invariant
            i <= names@.len(),
            forall|j: int| 0 <= j < i ==> #[trigger] names@[j]@ != name@,
        decreases names@.len() - i,
    {
        if names[i] == *name {
            return Some(i);
        }
        i = i + 1;
    }
    None
}

/// The library's kind for a scalar kind (`None` for enum and message kinds).
spec fn scalar_kind(k: KindRef) -> Option<FieldKind> {
    match k {
        KindRef::Double => Some(FieldKind::Double),
        KindRef::Float => Some(FieldKind::Float),
        KindRef::Int64 => Some(FieldKind::Int64),
        KindRef::Uint64 => Some(FieldKind::Uint64),
        KindRef::Int32 => Some(FieldKind::Int32),
        KindRef::Fixed64 => Some(FieldKind::Fixed64),
        KindRef::Fixed32 => Some(FieldKind::Fixed32),
        KindRef::Bool => Some(FieldKind::Bool),
        KindRef::String => Some(FieldKind::String),
        KindRef::Bytes => Some(FieldKind::Bytes),
        KindRef::Uint32 => Some(FieldKind::Uint32),
        KindRef::Sfixed32 => Some(FieldKind::Sfixed32),
        KindRef::Sfixed64 => Some(FieldKind::Sfixed64),
        KindRef::Sint32 => Some(FieldKind::Sint32),
        KindRef::Sint64 => Some(FieldKind::Sint64),
        KindRef::Enum(_) => None,
        KindRef::Message(_) => None,
    }
}

/// Index `i` of `names` is the first that holds its name.
spec fn first_of_its_name(names: Seq<String>, i: int) -> bool {
    &&& 0 <= i < names.len()
    &&& forall|j: int| 0 <= j < i ==> #[trigger] names[j]@ != names[i]@
}

/// The library's kind for a field's kind: a scalar kind is the same kind;
/// an enum or message type is found by its full name among the pool's
/// types (the first of that name), and a type that is not found gives
/// `ConversionError`.
fn resolve_kind(k: KindRef, messages: &Vec<String>, enums: &Vec<String>) -> (r: Result<
    FieldKind,
    ProtoDuckError,
>)
    ensures
        r matches Err(e) ==> e@ is ConversionError,
        scalar_kind(k) matches Some(fk) ==> r == Ok::<FieldKind, ProtoDuckError>(fk),
        k is Enum ==> (r matches Ok(x) && x matches FieldKind::Enum(i) && first_of_its_name(
            enums@,
            i as int,
        )) || r is Err,
        k is Message ==> (r matches Ok(x) && x matches FieldKind::Message(i) && first_of_its_name(
            messages@,
            i as int,
        )) || r is Err,
{
    match k {
        KindRef::Double => Ok(FieldKind::Double),
        KindRef::Float => Ok(FieldKind::Float),
        KindRef::Int64 => Ok(FieldKind::Int64),
        KindRef::Uint64 => Ok(FieldKind::Uint64),
        KindRef::Int32 => Ok(FieldKind::Int32),
        KindRef::Fixed64 => Ok(FieldKind::Fixed64),
        KindRef::Fixed32 => Ok(FieldKind::Fixed32),
        KindRef::Bool => Ok(FieldKind::Bool),
        KindRef::String => Ok(FieldKind::String),
        KindRef::Bytes => Ok(FieldKind::Bytes),
        KindRef::Uint32 => Ok(FieldKind::Uint32),
        KindRef::Sfixed32 => Ok(FieldKind::Sfixed32),
        KindRef::Sfixed64 => Ok(FieldKind::Sfixed64),
        KindRef::Sint32 => Ok(FieldKind::Sint32),
        KindRef::Sint64 => Ok(FieldKind::Sint64),
        KindRef::Enum(e) => match find_name(enums, &enum_full_name(&e)) {
            Some(i) => Ok(FieldKind::Enum(i)),
            None => Err(conversion_error("a field's enum type is not in the descriptor pool")),
        },
        KindRef::Message(m) => match find_name(messages, &message_full_name(&m)) {
            Some(i) => Ok(FieldKind::Message(i)),
            None => Err(conversion_error("a field's message type is not in the descriptor pool")),
        },
    }
}

/// The text of a float's JSON number: its own text when it is finite, `0`
/// otherwise.
fn json_float_text(t: Option<String>) -> (r: String)
    ensures
        t matches Some(x) ==> r@ == x@,
        t is None ==> r@ == "0"@,
{
    match t {
        Some(x) => x,
        None => conversion_text("0"),
    }
}

/// A `String` with the text of `s`.
fn conversion_text(s: &str) -> (r: String)
    ensures
        r@ == s@,
{
    crate::text::string_from_chars(crate::text::str_to_chars(s).as_slice())
}

/// A value that is neither a message, a list nor a map, in the library's
/// model (`None` for the others).
fn scalar_value(v: &Value) -> (r: Option<ProtoValue>)
    ensures
        r matches Some(x) ==> !(x@ is Message) && !(x@ is List) && !(x@ is MapEntries),
{
    scalar_of_shape(value_shape(v), v)
}

/// The scalar whose variant and content `sh` gives (the shape of `v`), in
/// the library's model with the same content (`None` for a message, list
/// or map).
fn scalar_of_shape<'a>(sh: ValueShape<'a>, v: &'a Value) -> (r: Option<ProtoValue>)
    ensures
        r matches Some(x) ==> !(x@ is Message) && !(x@ is List) && !(x@ is MapEntries),
        sh matches ValueShape::Bool(b) ==> (r matches Some(x) && x@ == ValueView::Bool(b)),
        sh matches ValueShape::I32(i) ==> (r matches Some(x) && x@ == ValueView::I32(i)),
        sh matches ValueShape::I64(i) ==> (r matches Some(x) && x@ == ValueView::I64(i)),
        sh matches ValueShape::U32(u) ==> (r matches Some(x) && x@ == ValueView::U32(u)),
        sh matches ValueShape::U64(u) ==> (r matches Some(x) && x@ == ValueView::U64(u)),
        sh matches ValueShape::String(t) ==> (r matches Some(x) && x@ == ValueView::String(t@)),
        sh matches ValueShape::Bytes(b) ==> (r matches Some(x) && x@ == ValueView::Bytes(b@)),
        sh matches ValueShape::EnumNumber(n) ==> (r matches Some(x) && x@ == ValueView::EnumNumber(
            n,
        )),
        (sh is Message || sh is List || sh is Entries) ==> r is None,
{
    match sh {
        ValueShape::Bool(b) => Some(ProtoValue::Bool(b)),
        ValueShape::I32(i) => Some(ProtoValue::I32(i)),
        ValueShape::I64(i) => Some(ProtoValue::I64(i)),
        ValueShape::U32(u) => Some(ProtoValue::U32(u)),
        ValueShape::U64(u) => Some(ProtoValue::U64(u)),
        ValueShape::Float => match float_texts(v) {
            Some((d, j)) => Some(ProtoValue::Float { display: d, json: json_float_text(j) }),
            None => None,
        },
        ValueShape::String(s) => Some(ProtoValue::String(s)),
        ValueShape::Bytes(b) => Some(ProtoValue::Bytes(b)),
        ValueShape::EnumNumber(n) => Some(ProtoValue::EnumNumber(n)),
        _ => None,
    }
}

/// An enum type in the library's model.
fn enum_schema(e: &EnumDescriptor) -> (r: EnumSchema) {
    enum_model(enum_name(e), enum_default_number(e), &enum_values(e))
}

/// The enum type named `name` whose default value has the number
/// `default_number` and whose declared values are `pairs` (name, number), in
/// the library's model: each declared value keeps its name and its number,
/// in declaration order.
fn enum_model(name: String, default_number: i32, pairs: &Vec<(String, i32)>) -> (r: EnumSchema)
    ensures
        r.name@ == name@,
        r.default_number == default_number,
        r.values@.len() == pairs@.len(),
        forall|k: int|
            0 <= k < pairs@.len() ==> (#[trigger] r.values@[k]).name@ == pairs@[k].0@
                && r.values@[k].number == pairs@[k].1,
{
    let mut values: Vec<EnumValueSchema> = Vec::new();
    let mut i: usize = 0;
    while i < pairs.len()
        invariant
            i <= pairs@.len(),
            values@.len() == i,
            forall|k: int|
                0 <= k < i ==> (#[trigger] values@[k]).name@ == pairs@[k].0@ && values@[k].number
                    == pairs@[k].1,
        decreases pairs@.len() - i,
    {
        values.push(EnumValueSchema { name: pairs[i].0.clone(), number: pairs[i].1 });
        i = i + 1;
    }
    EnumSchema { name, default_number, values }
}

/// A field in the library's model. A field that is not repeated gets the
/// value it reads as when unset as its declared default, unless that value
/// is a message.
fn field_schema(f: &FieldDescriptor, messages: &Vec<String>, enums: &Vec<String>) -> (r: Result<
    FieldSchema,
    ProtoDuckError,
>)
    ensures
        r matches Err(e) ==> e@ is ConversionError,
        r matches Ok(fs) ==> {
            &&& fs.cardinality == Cardinality::Repeated ==> fs.explicit_default is None
            &&& fs.explicit_default matches Some(d) ==> !(d@ is Message) && !(d@ is List) && !(
            d@ is MapEntries)
            &&& fs.kind matches FieldKind::Enum(i) ==> first_of_its_name(enums@, i as int)
            &&& fs.kind matches FieldKind::Message(i) ==> first_of_its_name(messages@, i as int)
        },
{
    let kind = match resolve_kind(field_kind(f), messages, enums) {
        Ok(k) => k,
        Err(e) => {
            return Err(e);
        },
    };
    Ok(
        field_model(
            field_name(f),
            field_number(f),
            kind,
            field_cardinality(f),
            field_is_map(f),
            scalar_value(&field_default_value(f)),
        ),
    )
}

/// A field in the library's model with the given name, number, kind,
/// cardinality and map flag, all kept as given; a field that is not
/// repeated has `default` (the value it reads as when unset) as its
/// declared default, a repeated one has none.
fn field_model(
    name: String,
    number: u32,
    kind: FieldKind,
    cardinality: Cardinality,
    is_map: bool,
    default: Option<ProtoValue>,
) -> (r: FieldSchema)
    ensures
        r.name@ == name@,
        r.number == number,
        r.kind == kind,
        r.cardinality == cardinality,
        r.is_map == is_map,
        cardinality == Cardinality::Repeated ==> r.explicit_default is None,
        cardinality != Cardinality::Repeated ==> r.explicit_default == default,
{
    let explicit_default = match cardinality {
        Cardinality::Repeated => None,
        _ => default,
    };
    FieldSchema { name, number, kind, cardinality, is_map, explicit_default }
}

/// The index of the field numbered `n`.
fn field_index(fields: &Vec<FieldSchema>, n: u32) -> (r: Option<usize>)
    ensures
        r matches Some(i) ==> i < fields@.len() && fields@[i as int].number == n,
        r matches Some(i) ==> forall|j: int| 0 <= j < i ==> #[trigger] fields@[j].number != n,
        r is None ==> forall|j: int| 0 <= j < fields@.len() ==> #[trigger] fields@[j].number != n,
{
    let mut i: usize = 0;
    while i < fields.len()
        invariant
            i <= fields@.len(),
            forall|j: int| 0 <= j < i ==> #[trigger] fields@[j].number != n,
        decreases fields@.len() - i,
    {
        if fields[i].number == n {
            return Some(i);
        }
        i = i + 1;
    }
    None
}

/// A oneof in the library's model, its fields given by index.
fn oneof_schema(o: &OneofDescriptor, fields: &Vec<FieldSchema>) -> (r: Result<
    OneofSchema,
    ProtoDuckError,
>)
    ensures
        r matches Err(e) ==> e@ is ConversionError,
        r matches Ok(os) ==> forall|k: int|
            0 <= k < os.fields@.len() ==> {
                let i = #[trigger] os.fields@[k] as int;
                &&& 0 <= i < fields@.len()
                &&& forall|j: int| 0 <= j < i ==> fields@[j].number != fields@[i].number
            },
{
    let numbers = oneof_field_numbers(o);
    let mut indices: Vec<usize> = Vec::new();
    let mut i: usize = 0;
    while i < numbers.len()
        invariant
            i <= numbers@.len(),
            forall|k: int|
                0 <= k < indices@.len() ==> {
                    let x = #[trigger] indices@[k] as int;
                    &&& 0 <= x < fields@.len()
                    &&& forall|j: int| 0 <= j < x ==> fields@[j].number != fields@[x].number
                },
        decreases numbers@.len() - i,
    {
        match field_index(fields, numbers[i]) {
            Some(j) => indices.push(j),
            None => {
                return Err(conversion_error("a oneof names a field its message does not have"));
            },
        }
        i = i + 1;
    }
    Ok(OneofSchema { name: oneof_name(o), fields: indices })
}

/// A message type in the library's model.
fn message_schema(
    m: &MessageDescriptor,
    full_name: String,
    messages: &Vec<String>,
    enums: &Vec<String>,
) -> (r: Result<MessageSchema, ProtoDuckError>)
    ensures
        r matches Err(e) ==> e@ is ConversionError,
        r matches Ok(s) ==> s.full_name@ == full_name@,
{
    let descs = message_fields(m);
    let mut fields: Vec<FieldSchema> = Vec::new();
    let mut i: usize = 0;
    while i < descs.len()
        invariant
            i <= descs@.len(),
        decreases descs@.len() - i,
    {
        match field_schema(&descs[i], messages, enums) {
            Ok(f) => fields.push(f),
            Err(e) => {
                return Err(e);
            },
        }
        i = i + 1;
    }
    let odescs = message_oneofs(m);
    let mut oneofs: Vec<OneofSchema> = Vec::new();
    let mut k: usize = 0;
    while k < odescs.len()
        invariant
            k <= odescs@.len(),
        decreases odescs@.len() - k,
    {
        match oneof_schema(&odescs[k], &fields) {
            Ok(o) => oneofs.push(o),
            Err(e) => {
                return Err(e);
            },
        }
        k = k + 1;
    }
    Ok(MessageSchema { name: message_name(m), full_name, fields, oneofs })
}

/// Whether a value fits the schema (see [`value_ok`]).
fn value_ok_check(schema: &Schema, v: &ProtoValue) -> (b: bool)
    ensures
        b == value_ok(*schema, v@),
    decreases v,
{
    match v {
        ProtoValue::Bytes(bs) => bs.len() <= usize::MAX / 2,
        ProtoValue::Message(m) => {
            proof {
                assert(decreases_to!(*v => (*v)->Message_0));
            }
            message_ok_check(schema, m)
        },
        ProtoValue::List(items) => {
            proof {
                crate::value::lemma_list_view(*items);
            }
            let ghost iv = v@->List_0;
            let mut i: usize = 0;
            while i < items.len()
                invariant
                    *v == ProtoValue::List(*items),
                    iv == v@->List_0,
                    iv.len() == items@.len(),
                    forall|x: int| 0 <= x < iv.len() ==> #[trigger] iv[x] == items@[x]@,
                    i <= items@.len(),
                    forall|x: int| 0 <= x < i ==> value_ok(*schema, #[trigger] iv[x]),
                decreases items.len() - i,
            {
                proof {
                    assert(decreases_to!(*v => (*v)->List_0));
                    assert(decreases_to!(*items => items@));
                    assert(decreases_to!(items@ => items@[i as int]));
                }
                if !value_ok_check(schema, &items[i]) {
                    proof {
                        assert(!value_ok(*schema, iv[i as int]));
                    }
                    return false;
                }
                i = i + 1;
            }
            true
        },
        ProtoValue::MapEntries(entries) => {
            proof {
                crate::value::lemma_map_view(*entries);
            }
            let ghost ev = v@->MapEntries_0;
            let mut i: usize = 0;
            while i < entries.len()
                invariant
                    *v == ProtoValue::MapEntries(*entries),
                    ev == v@->MapEntries_0,
                    ev.len() == entries@.len(),
                    forall|x: int|
                        0 <= x < ev.len() ==> #[trigger] ev[x] == (
                            entries@[x].0@,
                            entries@[x].1@,
                        ),
                    i <= entries@.len(),
                    forall|x: int| 0 <= x < i ==> value_ok(*schema, (#[trigger] ev[x]).1),
                decreases entries.len() - i,
            {
                proof {
                    assert(decreases_to!(*v => (*v)->MapEntries_0));
                    assert(decreases_to!(*entries => entries@));
                    assert(decreases_to!(entries@ => entries@[i as int]));
                    assert(decreases_to!(entries@[i as int] => entries@[i as int].1));
                }
                if !value_ok_check(schema, &entries[i].1) {
                    proof {
                        assert(!value_ok(*schema, ev[i as int].1));
                    }
                    return false;
                }
                i = i + 1;
            }
            true
        },
        _ => true,
    }
}

/// Whether a message fits the schema (see [`value_ok`]).
fn message_ok_check(schema: &Schema, m: &MessageValue) -> (b: bool)
    ensures
        b == value_ok(*schema, ValueView::Message(m@)),
    decreases m,
{
    proof {
        lemma_message_view(*m);
    }
    if m.type_index >= schema.messages.len() {
        return false;
    }
    let mut j: usize = 0;
    while j < m.fields.len()
        invariant
            m.type_index < schema.messages@.len(),
            m@.fields.len() == m.fields@.len(),
            forall|k: int|
                0 <= k < m.fields@.len() ==> #[trigger] m@.fields[k] == match m.fields@[k] {
                    Some(x) => Some(x@),
                    None => None::<ValueView>,
                },
            j <= m.fields@.len(),
            forall|k: int|
                0 <= k < j ==> match #[trigger] m@.fields[k] {
                    Some(x) => value_ok(*schema, x),
                    None => true,
                },
        decreases m.fields.len() - j,
    {
        match &m.fields[j] {
            Some(x) => {
                proof {
                    assert(decreases_to!(*m => m.fields));
                    assert(decreases_to!(m.fields => m.fields@));
                    assert(decreases_to!(m.fields@ => m.fields@[j as int]));
                    assert(decreases_to!(m.fields@[j as int] => *x));
                }
                if !value_ok_check(schema, x) {
                    proof {
                        assert(m@.fields[j as int] == Some(x@));
                    }
                    return false;
                }
            },
            None => {},
        }
        j = j + 1;
    }
    true
}

/// Whether a field is well formed in the schema (see [`Schema::field_ok`]).
fn field_ok_check(schema: &Schema, f: &FieldSchema) -> (b: bool)
    ensures
        b == schema.field_ok(*f),
{
    let kind_ok = match f.kind {
        FieldKind::Enum(e) => e < schema.enums.len(),
        FieldKind::Message(m) => m < schema.messages.len(),
        _ => true,
    };
    if !kind_ok {
        return false;
    }
    if f.is_map {
        match f.kind {
            FieldKind::Message(m) => {
                let entry = &schema.messages[m].fields;
                if entry.len() < 2 || entry[0].is_map || entry[1].is_map {
                    return false;
                }
            },
            _ => {
                return false;
            },
        }
    }
    match &f.explicit_default {
        Some(d) => match d {
            ProtoValue::Message(_) => false,
            _ => value_ok_check(schema, d),
        },
        None => true,
    }
}

/// Whether every type reference of the schema names one of its types (see
/// [`Schema::wf`]).
fn schema_wf_check(schema: &Schema) -> (b: bool)
    ensures
        b == schema.wf(),
{
    let mut m: usize = 0;
    while m < schema.messages.len()
        invariant
            m <= schema.messages@.len(),
            forall|m2: int, j: int|
                0 <= m2 < m && 0 <= j < schema.messages@[m2].fields@.len() ==> schema.field_ok(
                    #[trigger] schema.messages@[m2].fields@[j],
                ),
            forall|m2: int, o: int, k: int|
                0 <= m2 < m && 0 <= o < schema.messages@[m2].oneofs@.len() && 0 <= k
                    < schema.messages@[m2].oneofs@[o].fields@.len()
                    ==> #[trigger] schema.messages@[m2].oneofs@[o].fields@[k]
                    < schema.messages@[m2].fields@.len(),
        decreases schema.messages@.len() - m,
    {
        let msg = &schema.messages[m];
        let mut j: usize = 0;
        while j < msg.fields.len()
            invariant
                m < schema.messages@.len(),
                msg == schema.messages@[m as int],
                j <= msg.fields@.len(),
                forall|j2: int| 0 <= j2 < j ==> schema.field_ok(#[trigger] msg.fields@[j2]),
            decreases msg.fields@.len() - j,
        {
            if !field_ok_check(schema, &msg.fields[j]) {
                proof {
                    assert(!schema.field_ok(schema.messages@[m as int].fields@[j as int]));
                }
                return false;
            }
            j = j + 1;
        }
        let mut o: usize = 0;
        while o < msg.oneofs.len()
            invariant
                m < schema.messages@.len(),
                msg == schema.messages@[m as int],
                o <= msg.oneofs@.len(),
                forall|o2: int, k: int|
                    0 <= o2 < o && 0 <= k < msg.oneofs@[o2].fields@.len()
                        ==> #[trigger] msg.oneofs@[o2].fields@[k] < msg.fields@.len(),
            decreases msg.oneofs@.len() - o,
        {
            let oneof = &msg.oneofs[o];
            let mut k: usize = 0;
            while k < oneof.fields.len()
                invariant
                    m < schema.messages@.len(),
                    msg == schema.messages@[m as int],
                    o < msg.oneofs@.len(),
                    oneof == msg.oneofs@[o as int],
                    k <= oneof.fields@.len(),
                    forall|k2: int| 0 <= k2 < k ==> #[trigger] oneof.fields@[k2] < msg.fields@.len(),
                decreases oneof.fields@.len() - k,
            {
                if oneof.fields[k] >= msg.fields.len() {
                    proof {
                        assert(!(schema.messages@[m as int].oneofs@[o as int].fields@[k as int]
                            < schema.messages@[m as int].fields@.len()));
                    }
                    return false;
                }
                k = k + 1;
            }
            o = o + 1;
        }
        m = m + 1;
    }
    true
}

/// The message types of `s` have the full names `names`, in that order.
pub open spec fn lists_names(s: Schema, names: Seq<Seq<char>>) -> bool {
    &&& s.messages@.len() == names.len()
    &&& forall|i: int| 0 <= i < names.len() ==> #[trigger] s.messages@[i].full_name@ == names[i]
}

/// The schema of a descriptor pool: its message types in the pool's order
/// (their full names those the pool lists) and its enum types. Fails with
/// `ConversionError` where the descriptors do not form a well-formed schema.
pub fn build_schema(pool: &DescriptorPool) -> (r: Result<Schema, ProtoDuckError>)
    ensures
        r matches Err(e) ==> e@ is ConversionError,
        r matches Ok(s) ==> s.wf() && lists_names(s, pool_message_names(*pool)),
{
    let names = pool_all_message_names(pool);
    let edescs = pool_enums(pool);
    let mut enum_names: Vec<String> = Vec::new();
    let mut enums: Vec<EnumSchema> = Vec::new();
    let mut e: usize = 0;
    while e < edescs.len()
        invariant
            e <= edescs@.len(),
        decreases edescs@.len() - e,
    {
        enum_names.push(enum_full_name(&edescs[e]));
        enums.push(enum_schema(&edescs[e]));
        e = e + 1;
    }
    proof {
        assert(names@.len() == names@.map_values(|s: String| s@).len());
    }
    let mut messages: Vec<MessageSchema> = Vec::new();
    let mut i: usize = 0;
    while i < names.len()
        invariant
            names@.map_values(|s: String| s@) == pool_message_names(*pool),
            i <= names@.len(),
            messages@.len() == i,
            forall|k: int| 0 <= k < i ==> #[trigger] messages@[k].full_name@ == pool_message_names(*pool)[k],
        decreases names@.len() - i,
    {
        proof {
            assert(names@.map_values(|s: String| s@)[i as int] == names@[i as int]@);
            assert(pool_message_names(*pool)[i as int] == names@[i as int]@);
        }
        let desc = match pool_get_message(pool, names[i].as_str()) {
            Some(d) => d,
            None => {
                return Err(conversion_error("a listed message type cannot be found by name"));
            },
        };
        match message_schema(&desc, names[i].clone(), &names, &enum_names) {
            Ok(ms) => messages.push(ms),
            Err(err) => {
                return Err(err);
            },
        }
        i = i + 1;
    }
    let schema = Schema { messages, enums };
    if !schema_wf_check(&schema) {
        return Err(conversion_error("the descriptor pool does not form a consistent schema"));
    }
    Ok(schema)
}

/// The index of the message type of the given full name.
fn find_message_type(schema: &Schema, name: &String) -> (r: Option<usize>)
    ensures
        r matches Some(i) ==> i < schema.messages@.len() && schema.messages@[i as int].full_name@
            == name@,
        r matches Some(i) ==> forall|j: int|
            0 <= j < i ==> #[trigger] schema.messages@[j].full_name@ != name@,
        r is None ==> forall|j: int|
            0 <= j < schema.messages@.len() ==> #[trigger] schema.messages@[j].full_name@ != name@,
{
    let mut i: usize = 0;
    while i < schema.messages.len()
        invariant
            i <= schema.messages@.len(),
            forall|j: int| 0 <= j < i ==> #[trigger] schema.messages@[j].full_name@ != name@,
        decreases schema.messages@.len() - i,
    {
        if schema.messages[i].full_name == *name {
            return Some(i);
        }
        i = i + 1;
    }
    None
}

/// A decoded message in the library's model: its type found by full name in
/// the schema, and each field of its descriptor that is set.
fn convert_message(schema: &Schema, m: &DynamicMessage, fuel: u32) -> (r: Result<
    MessageValue,
    ProtoDuckError,
>)
    ensures
        r matches Err(e) ==> e@ is ConversionError,
        r matches Ok(x) ==> value_ok(*schema, ValueView::Message(x@)),
    decreases fuel, 2int,
{
    let desc = dynamic_descriptor(m);
    let t = match find_message_type(schema, &message_full_name(&desc)) {
        Some(t) => t,
        None => {
            return Err(conversion_error("a message's type is not in its descriptor pool"));
        },
    };
    let fds = message_fields(&desc);
    let mut fields: Vec<Option<ProtoValue>> = Vec::new();
    let mut j: usize = 0;
    while j < fds.len()
        invariant
            j <= fds@.len(),
            forall|k: int|
                0 <= k < fields@.len() ==> match #[trigger] fields@[k] {
                    Some(x) => value_ok(*schema, x@),
                    None => true,
                },
        decreases fds@.len() - j,
    {
        if dynamic_has_field(m, &fds[j]) {
            let v = dynamic_get_field(m, &fds[j]);
            match convert_value(schema, &v, fuel) {
                Ok(x) => fields.push(Some(x)),
                Err(e) => {
                    return Err(e);
                },
            }
        } else {
            fields.push(None);
        }
        j = j + 1;
    }
    let mv = MessageValue { type_index: t, fields };
    proof {
        lemma_message_view(mv);
        assert forall|k: int| 0 <= k < mv@.fields.len() implies match #[trigger] mv@.fields[k] {
            Some(x) => value_ok(*schema, x),
            None => true,
        } by {
            assert(match mv.fields@[k] {
                Some(x) => value_ok(*schema, x@),
                None => true,
            });
        }
    }
    Ok(mv)
}

/// A `prost_reflect` value in the library's model. Fails with
/// `ConversionError` on values nested deeper than `fuel`, byte strings too
/// long to encode, and messages whose type is not in the schema.
fn convert_value(schema: &Schema, v: &Value, fuel: u32) -> (r: Result<ProtoValue, ProtoDuckError>)
    ensures
        r matches Err(e) ==> e@ is ConversionError,
        fuel == 0 ==> (r matches Err(e) && e@ == crate::error::ProtoDuckErrorView::ConversionError(
            "values are nested deeper than the limit"@,
        )),
        r matches Ok(x) ==> value_ok(*schema, x@),
    decreases fuel, 1int,
{
    if fuel == 0 {
        return Err(conversion_error("values are nested deeper than the limit"));
    }
    convert_shape(schema, value_shape(v), v, fuel)
}

/// A value whose variant and content `sh` gives (the shape of `v`), in the
/// library's model: each scalar keeps its content (a boolean, integer,
/// string, byte string or enum number is modelled with the same value);
/// messages, lists and maps are read one level deeper with `fuel - 1`.
fn convert_shape<'a>(schema: &Schema, sh: ValueShape<'a>, v: &'a Value, fuel: u32) -> (r: Result<
    ProtoValue,
    ProtoDuckError,
>)
    requires
        fuel > 0,
    ensures
        r matches Err(e) ==> e@ is ConversionError,
        r matches Ok(x) ==> value_ok(*schema, x@),
        sh matches ValueShape::Bool(b) ==> (r matches Ok(x) && x@ == ValueView::Bool(b)),
        sh matches ValueShape::I32(i) ==> (r matches Ok(x) && x@ == ValueView::I32(i)),
        sh matches ValueShape::I64(i) ==> (r matches Ok(x) && x@ == ValueView::I64(i)),
        sh matches ValueShape::U32(u) ==> (r matches Ok(x) && x@ == ValueView::U32(u)),
        sh matches ValueShape::U64(u) ==> (r matches Ok(x) && x@ == ValueView::U64(u)),
        sh matches ValueShape::String(t) ==> (r matches Ok(x) && x@ == ValueView::String(t@)),
        sh matches ValueShape::Bytes(b) ==> (b@.len() <= usize::MAX / 2 <==> (r matches Ok(x)
            && x@ == ValueView::Bytes(b@))),
        sh matches ValueShape::EnumNumber(n) ==> (r matches Ok(x) && x@ == ValueView::EnumNumber(n)),
        r matches Ok(x) && x@ is Message ==> sh is Message,
        r matches Ok(x) && x@ is List ==> sh is List,
        r matches Ok(x) && x@ is MapEntries ==> sh is Entries,
    decreases fuel, 0int,
{
    match sh {
        ValueShape::Bool(b) => Ok(ProtoValue::Bool(b)),
        ValueShape::I32(i) => Ok(ProtoValue::I32(i)),
        ValueShape::I64(i) => Ok(ProtoValue::I64(i)),
        ValueShape::U32(u) => Ok(ProtoValue::U32(u)),
        ValueShape::U64(u) => Ok(ProtoValue::U64(u)),
        ValueShape::Float => match float_texts(v) {
            Some((d, j)) => Ok(ProtoValue::Float { display: d, json: json_float_text(j) }),
            None => Err(conversion_error("a float value has no float text")),
        },
        ValueShape::String(s) => Ok(ProtoValue::String(s)),
        ValueShape::Bytes(b) => {
            if b.len() <= usize::MAX / 2 {
                Ok(ProtoValue::Bytes(b))
            } else {
                Err(conversion_error("a byte string is too long to encode"))
            }
        },
        ValueShape::EnumNumber(n) => Ok(ProtoValue::EnumNumber(n)),
        ValueShape::Message(dm) => match convert_message(schema, dm, fuel - 1) {
            Ok(mv) => {
                proof {
                    lemma_message_view(mv);
                }
                Ok(ProtoValue::Message(mv))
            },
            Err(e) => Err(e),
        },
        ValueShape::List(items) => {
            let mut out: Vec<ProtoValue> = Vec::new();
            let mut i: usize = 0;
            while i < items.len()
                invariant
                    i <= items@.len(),
                    fuel > 0,
                    sh is List,
                    forall|k: int| 0 <= k < out@.len() ==> value_ok(*schema, #[trigger] out@[k]@),
                decreases items@.len() - i,
            {
                match convert_value(schema, &items[i], fuel - 1) {
                    Ok(x) => out.push(x),
                    Err(e) => {
                        return Err(e);
                    },
                }
                i = i + 1;
            }
            proof {
                crate::value::lemma_list_view(out);
            }
            Ok(ProtoValue::List(out))
        },
        ValueShape::Entries => {
            let entries = map_entries(v);
            let mut out: Vec<(MapKey, ProtoValue)> = Vec::new();
            let mut i: usize = 0;
            while i < entries.len()
                invariant
                    i <= entries@.len(),
                    fuel > 0,
                    sh is Entries,
                    forall|k: int| 0 <= k < out@.len() ==> value_ok(*schema, #[trigger] out@[k].1@),
                decreases entries@.len() - i,
            {
                let key = crate::value::copy_map_key(&entries[i].0);
                match convert_value(schema, entries[i].1, fuel - 1) {
                    Ok(x) => out.push((key, x)),
                    Err(e) => {
                        return Err(e);
                    },
                }
                i = i + 1;
            }
            proof {
                crate::value::lemma_map_view(out);
            }
            Ok(ProtoValue::MapEntries(out))
        },
    }
}

/// A decoded message in the model of `schema`, read as a message of type
/// `t`: a message whose type is another one gives `ConversionError`.
pub fn convert_message_of_type(schema: &Schema, m: &DynamicMessage, t: usize) -> (r: Result<
    MessageValue,
    ProtoDuckError,
>)
    ensures
        r matches Ok(x) ==> value_ok(*schema, ValueView::Message(x@)) && x@.type_index == t,
        r matches Err(e) ==> e@ is ConversionError,
{
    match convert_message(schema, m, NESTING_LIMIT) {
        Ok(mv) => {
            proof {
                lemma_message_view(mv);
            }
            if mv.type_index == t {
                Ok(mv)
            } else {
                Err(conversion_error("a decoded message is not of the type it was decoded as"))
            }
        },
        Err(e) => Err(e),
    }
}

/// A decoded message and the schema of its descriptor pool, in the library's
/// model. Fails with `ConversionError` where the descriptors do not form a
/// well-formed schema or the message does not fit it.
pub fn message_model(message: &DynamicMessage) -> (r: Result<(Schema, MessageValue), ProtoDuckError>)
    ensures
        r matches Ok((s, m)) ==> s.wf() && value_ok(s, ValueView::Message(m@)),
        r matches Err(e) ==> e@ is ConversionError,
{
    let pool = message_pool(&dynamic_descriptor(message));
    let schema = match build_schema(&pool) {
        Ok(s) => s,
        Err(e) => {
            return Err(e);
        },
    };
    match convert_message(&schema, message, NESTING_LIMIT) {
        Ok(mv) => Ok((schema, mv)),
        Err(e) => Err(e),
    }
}

} // verus!
