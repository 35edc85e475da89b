//! The library's model of protobuf message and enum types.

use vstd::prelude::*;

use crate::error::{ProtoDuckError, ProtoDuckErrorView};
use crate::text::{chars_eq, push_chars, push_str, str_to_chars, string_from_chars, u64_decimal};
use crate::value::ProtoValue;

verus! {

/// The type of a field.
#[derive(Clone, Copy, Debug, PartialEq, Eq, Structural)]
pub enum FieldKind {
    Double,
    Float,
    Int64,
    Uint64,
    Int32,
    Fixed64,
    Fixed32,
    Bool,
    String,
    Bytes,
    Uint32,
    Sfixed32,
    Sfixed64,
    Sint32,
    Sint64,
    /// An enum type, by its index in [`Schema::enums`].
    Enum(usize),
    /// A message type, by its index in [`Schema::messages`].
    Message(usize),
}

/// How many values a field holds.
#[derive(Clone, Copy, Debug, PartialEq, Eq, Structural)]
pub enum Cardinality {
    Optional,
    Required,
    Repeated,
}

/// A field of a message type.
pub struct FieldSchema {
    pub name: String,
    pub number: u32,
    pub kind: FieldKind,
    pub cardinality: Cardinality,
    /// The field is a map (its kind is then the map's entry type).
    pub is_map: bool,
    /// The default value that the type declares for the field, if any.
    pub explicit_default: Option<ProtoValue>,
}

/// A `oneof` of a message type: its name and the indices of its fields.
pub struct OneofSchema {
    pub name: String,
    pub fields: Vec<usize>,
}

/// A message type. The entry type of a map has the key as its first field
/// and the value as its second.
pub struct MessageSchema {
    pub name: String,
    pub full_name: String,
    pub fields: Vec<FieldSchema>,
    pub oneofs: Vec<OneofSchema>,
}

/// A value of an enum type.
pub struct EnumValueSchema {
    pub name: String,
    pub number: i32,
}

/// An enum type: its name, the number of its default value, and its values.
pub struct EnumSchema {
    pub name: String,
    pub default_number: i32,
    pub values: Vec<EnumValueSchema>,
}

/// The message and enum types that values are read against.
pub struct Schema {
    pub messages: Vec<MessageSchema>,
    pub enums: Vec<EnumSchema>,
}

/// A field that holds many values and is not a map.
pub open spec fn is_list(f: FieldSchema) -> bool {
    f.cardinality == Cardinality::Repeated && !f.is_map
}

impl Schema {
    /// The kind refers to a type of this schema.
    pub open spec fn kind_ok(&self, k: FieldKind) -> bool {
        match k {
            FieldKind::Enum(e) => e < self.enums@.len(),
            FieldKind::Message(m) => m < self.messages@.len(),
            _ => true,
        }
    }

    /// `m` is a message type with a key and a value field, neither a map.
    pub open spec fn map_entry_ok(&self, m: usize) -> bool {
        &&& m < self.messages@.len()
        &&& self.messages@[m as int].fields@.len() >= 2
        &&& !self.messages@[m as int].fields@[0].is_map
        &&& !self.messages@[m as int].fields@[1].is_map
    }

    /// A field whose kind refers to a type of this schema, and whose map entry
    /// type, for a map, is well formed.
    pub open spec fn field_ok(&self, f: FieldSchema) -> bool {
        &&& self.kind_ok(f.kind)
        &&& f.is_map ==> (f.kind matches FieldKind::Message(m) && self.map_entry_ok(m))
        &&& f.explicit_default matches Some(d) ==> !(d@ is Message) && crate::value::value_ok(*self, d@)
    }

    /// Every type reference in the schema names a type of the schema.
    pub open spec fn wf(&self) -> bool {
        &&& forall|m: int, j: int|
            0 <= m < self.messages@.len() && 0 <= j < self.messages@[m].fields@.len()
                ==> self.field_ok(#[trigger] self.messages@[m].fields@[j])
        &&& forall|m: int, o: int, k: int|
            0 <= m < self.messages@.len() && 0 <= o < self.messages@[m].oneofs@.len() && 0 <= k
                < self.messages@[m].oneofs@[o].fields@.len() ==> #[trigger] self.messages@[m].oneofs@[o].fields@[k]
                < self.messages@[m].fields@.len()
    }
}

} // verus!

verus! {

/// `s` without its leading dots.
pub open spec fn trim_leading_dots(s: Seq<char>) -> Seq<char>
    decreases s.len(),
{
    if s.len() > 0 && s[0] == '.' {
        trim_leading_dots(s.drop_first())
    } else {
        s
    }
}

/// A name without its leading dots does not start with a dot.
pub proof fn lemma_trimmed_has_no_leading_dot(s: Seq<char>)
    ensures
        !(trim_leading_dots(s).len() > 0 && trim_leading_dots(s)[0] == '.'),
    decreases s.len(),
{
    if s.len() > 0 && s[0] == '.' {
        lemma_trimmed_has_no_leading_dot(s.drop_first());
    }
}

/// A leading dot does not change the name that a type is looked up by:
/// `.a.B` names what `a.B` names.
pub proof fn law_leading_dot_ignored(s: Seq<char>)
    ensures
        trim_leading_dots(seq!['.'] + s) == trim_leading_dots(s),
{
    assert((seq!['.'] + s).drop_first() =~= s);
}

/// The index of the first message type in `msgs[i..]` whose full name is `name`.
pub open spec fn find_message_from(msgs: Seq<MessageSchema>, name: Seq<char>, i: int) -> Option<
    int,
>
    decreases msgs.len() - i,
{
    if i < 0 || i >= msgs.len() {
        None
    } else if msgs[i].full_name@ == name {
        Some(i)
    } else {
        find_message_from(msgs, name, i + 1)
    }
}

/// How a schema description writes a kind: scalars by their protobuf name,
/// enums as `enum Name`, messages by their name.
pub open spec fn kind_type_text(schema: Schema, k: FieldKind) -> Seq<char> {
    match k {
        FieldKind::Enum(e) => "enum "@ + schema.enums@[e as int].name@,
        FieldKind::Message(m) => schema.messages@[m as int].name@,
        _ => crate::type_mapping::kind_name(k),
    }
}

/// How a schema description writes a field's type: `map<K, V>` for a map,
/// otherwise as its kind.
pub open spec fn field_type_text(schema: Schema, f: FieldSchema) -> Seq<char> {
    match f.kind {
        FieldKind::Message(m) => if f.is_map {
            let entry = schema.messages@[m as int];
            "map<"@ + kind_type_text(schema, entry.fields@[0].kind) + ", "@ + kind_type_text(
                schema,
                entry.fields@[1].kind,
            ) + ">"@
        } else {
            kind_type_text(schema, f.kind)
        },
        _ => kind_type_text(schema, f.kind),
    }
}

/// The label before a field's type: `repeated ` for a repeated field that is
/// not a map, `optional ` for an optional field, nothing otherwise.
pub open spec fn field_label(f: FieldSchema) -> Seq<char> {
    if is_list(f) {
        "repeated "@
    } else if f.cardinality == Cardinality::Optional {
        "optional "@
    } else {
        seq![]
    }
}

/// The line that describes a field.
pub open spec fn field_line(schema: Schema, f: FieldSchema) -> Seq<char> {
    "  "@ + field_label(f) + field_type_text(schema, f) + " "@ + f.name@ + " = "@
        + crate::text::nat_decimal(f.number as nat) + ";\n"@
}

/// The line that describes a field within a `oneof`.
pub open spec fn oneof_field_line(schema: Schema, f: FieldSchema) -> Seq<char> {
    "    "@ + field_type_text(schema, f) + " "@ + f.name@ + " = "@ + crate::text::nat_decimal(
        f.number as nat,
    ) + ";\n"@
}

/// The lines of `fields[0..n)`.
pub open spec fn fields_text(schema: Schema, fields: Seq<FieldSchema>, n: int) -> Seq<char>
    decreases n,
{
    if n <= 0 || n > fields.len() {
        seq![]
    } else {
        fields_text(schema, fields, n - 1) + field_line(schema, fields[n - 1])
    }
}

/// The lines of the fields `indices[0..n)` of a `oneof`.
pub open spec fn oneof_fields_text(
    schema: Schema,
    fields: Seq<FieldSchema>,
    indices: Seq<usize>,
    n: int,
) -> Seq<char>
    decreases n,
{
    if n <= 0 || n > indices.len() {
        seq![]
    } else {
        oneof_fields_text(schema, fields, indices, n - 1) + oneof_field_line(
            schema,
            fields[indices[n - 1] as int],
        )
    }
}

/// The block of a `oneof`; a `oneof` of at most one field (as proto3
/// `optional` makes) is left out.
pub open spec fn oneof_text(schema: Schema, fields: Seq<FieldSchema>, o: OneofSchema) -> Seq<char> {
    if o.fields@.len() > 1 {
        "  oneof "@ + o.name@ + " {\n"@ + oneof_fields_text(
            schema,
            fields,
            o.fields@,
            o.fields@.len() as int,
        ) + "  }\n"@
    } else {
        seq![]
    }
}

/// The blocks of `oneofs[0..n)`.
pub open spec fn oneofs_text(
    schema: Schema,
    fields: Seq<FieldSchema>,
    oneofs: Seq<OneofSchema>,
    n: int,
) -> Seq<char>
    decreases n,
{
    if n <= 0 || n > oneofs.len() {
        seq![]
    } else {
        oneofs_text(schema, fields, oneofs, n - 1) + oneof_text(schema, fields, oneofs[n - 1])
    }
}

/// The description of message type `m`: a `message Name {` line, a line per
/// field, a block per `oneof` of two or more fields, and `}`.
pub open spec fn describe_text(schema: Schema, m: int) -> Seq<char> {
    let msg = schema.messages@[m];
    "message "@ + msg.name@ + " {\n"@ + fields_text(schema, msg.fields@, msg.fields@.len() as int)
        + oneofs_text(schema, msg.fields@, msg.oneofs@, msg.oneofs@.len() as int) + "}"@
}

/// `s` without its leading dots.
pub fn trim_dots(s: &str) -> (r: Vec<char>)
    ensures
        r@ == trim_leading_dots(s@),
{
    let chars = str_to_chars(s);
    let mut i: usize = 0;
    assert(chars@.skip(0) =~= chars@);
    while i < chars.len() && chars[i] == '.'
        invariant
            i <= chars@.len(),
            trim_leading_dots(chars@) == trim_leading_dots(chars@.skip(i as int)),
        decreases chars.len() - i,
    {
        proof {
            assert(chars@.skip(i as int).drop_first() =~= chars@.skip(i + 1));
        }
        i = i + 1;
    }
    let mut r: Vec<char> = Vec::new();
    let mut k: usize = i;
    while k < chars.len()
        invariant
            i <= k <= chars@.len(),
            r@ == chars@.subrange(i as int, k as int),
        decreases chars.len() - k,
    {
        r.push(chars[k]);
        k = k + 1;
        assert(r@ =~= chars@.subrange(i as int, k as int));
    }
    proof {
        assert(chars@.skip(0) =~= chars@);
        assert(chars@.subrange(i as int, chars@.len() as int) =~= chars@.skip(i as int));
    }
    r
}

/// The index of the message type whose full name is `name`, ignoring leading dots.
pub fn find_message(schema: &Schema, name: &str) -> (r: (Option<usize>, Vec<char>))
    ensures
        r.1@ == trim_leading_dots(name@),
        match find_message_from(schema.messages@, trim_leading_dots(name@), 0) {
            Some(i) => r.0 == Some(i as usize),
            None => r.0 is None,
        },
{
    let t = trim_dots(name);
    let mut i: usize = 0;
    while i < schema.messages.len()
        invariant
            i <= schema.messages@.len(),
            t@ == trim_leading_dots(name@),
            find_message_from(schema.messages@, t@, 0) == find_message_from(
                schema.messages@,
                t@,
                i as int,
            ),
        decreases schema.messages.len() - i,
    {
        let full = str_to_chars(schema.messages[i].full_name.as_str());
        if chars_eq(full.as_slice(), t.as_slice()) {
            return (Some(i), t);
        }
        i = i + 1;
    }
    (None, t)
}

/// Appends how a description writes kind `k`.
fn write_kind_type(schema: &Schema, k: FieldKind, out: &mut Vec<char>)
    requires
        schema.kind_ok(k),
    ensures
        final(out)@ == old(out)@ + kind_type_text(*schema, k),
{
    match k {
        FieldKind::Enum(e) => {
            push_str(out, "enum ");
            push_str(out, schema.enums[e].name.as_str());
            assert(out@ =~= old(out)@ + kind_type_text(*schema, k));
        },
        FieldKind::Message(m) => push_str(out, schema.messages[m].name.as_str()),
        _ => push_str(out, crate::type_mapping::field_kind_name(k)),
    }
}

/// Appends how a description writes a field's type (see [`field_type_text`]).
pub fn format_field_type(schema: &Schema, field: &FieldSchema, out: &mut Vec<char>)
    requires
        schema.wf(),
        schema.field_ok(*field),
    ensures
        final(out)@ == old(out)@ + field_type_text(*schema, *field),
{
    match field.kind {
        FieldKind::Message(m) => {
            if field.is_map {
                let entry = &schema.messages[m];
                proof {
                    assert(schema.field_ok(schema.messages@[m as int].fields@[0]));
                    assert(schema.field_ok(schema.messages@[m as int].fields@[1]));
                }
                push_str(out, "map<");
                write_kind_type(schema, entry.fields[0].kind, out);
                push_str(out, ", ");
                write_kind_type(schema, entry.fields[1].kind, out);
                push_str(out, ">");
                assert(out@ =~= old(out)@ + field_type_text(*schema, *field));
            } else {
                write_kind_type(schema, field.kind, out);
            }
        },
        _ => write_kind_type(schema, field.kind, out),
    }
}

fn write_field_tail(schema: &Schema, field: &FieldSchema, out: &mut Vec<char>)
    requires
        schema.wf(),
        schema.field_ok(*field),
    ensures
        final(out)@ == old(out)@ + field_type_text(*schema, *field) + " "@ + field.name@
            + " = "@ + crate::text::nat_decimal(field.number as nat) + ";\n"@,
{
    format_field_type(schema, field, out);
    push_str(out, " ");
    push_str(out, field.name.as_str());
    push_str(out, " = ");
    push_chars(out, u64_decimal(field.number as u64).as_slice());
    push_str(out, ";\n");
}

/// The description of message type `m` (see [`describe_text`]).
pub fn describe_message(schema: &Schema, m: usize) -> (r: String)
    requires
        schema.wf(),
        m < schema.messages@.len(),
    ensures
        r@ == describe_text(*schema, m as int),
{
    let msg = &schema.messages[m];
    let mut out: Vec<char> = Vec::new();
    push_str(&mut out, "message ");
    push_str(&mut out, msg.name.as_str());
    push_str(&mut out, " {\n");
    let ghost head = out@;
    let mut j: usize = 0;
    while j < msg.fields.len()
        invariant
            schema.wf(),
            m < schema.messages@.len(),
            *msg == schema.messages@[m as int],
            j <= msg.fields@.len(),
            out@ == head + fields_text(*schema, msg.fields@, j as int),
        decreases msg.fields.len() - j,
    {
        let f = &msg.fields[j];
        proof {
            assert(schema.field_ok(schema.messages@[m as int].fields@[j as int]));
        }
        push_str(&mut out, "  ");
        if f.cardinality == Cardinality::Repeated && !f.is_map {
            push_str(&mut out, "repeated ");
        } else if f.cardinality == Cardinality::Optional {
            push_str(&mut out, "optional ");
        }
        write_field_tail(schema, f, &mut out);
        assert(out@ =~= head + fields_text(*schema, msg.fields@, j + 1));
        j = j + 1;
    }
    let ghost mid = out@;
    let mut o: usize = 0;
    while o < msg.oneofs.len()
        invariant
            schema.wf(),
            m < schema.messages@.len(),
            *msg == schema.messages@[m as int],
            o <= msg.oneofs@.len(),
            out@ == mid + oneofs_text(*schema, msg.fields@, msg.oneofs@, o as int),
        decreases msg.oneofs.len() - o,
    {
        let oneof = &msg.oneofs[o];
        if oneof.fields.len() > 1 {
            let ghost before = out@;
            push_str(&mut out, "  oneof ");
            push_str(&mut out, oneof.name.as_str());
            push_str(&mut out, " {\n");
            let ghost inner = out@;
            let mut k: usize = 0;
            while k < oneof.fields.len()
                invariant
                    schema.wf(),
                    m < schema.messages@.len(),
                    *msg == schema.messages@[m as int],
                    o < msg.oneofs@.len(),
                    *oneof == msg.oneofs@[o as int],
                    k <= oneof.fields@.len(),
                    out@ == inner + oneof_fields_text(
                        *schema,
                        msg.fields@,
                        oneof.fields@,
                        k as int,
                    ),
                decreases oneof.fields.len() - k,
            {
                let fi = oneof.fields[k];
                proof {
                    assert(schema.messages@[m as int].oneofs@[o as int].fields@[k as int]
                        < schema.messages@[m as int].fields@.len());
                    assert(schema.field_ok(schema.messages@[m as int].fields@[fi as int]));
                }
                let f = &msg.fields[fi];
                push_str(&mut out, "    ");
                write_field_tail(schema, f, &mut out);
                assert(out@ =~= inner + oneof_fields_text(
                    *schema,
                    msg.fields@,
                    oneof.fields@,
                    k + 1,
                ));
                k = k + 1;
            }
            push_str(&mut out, "  }\n");
            assert(out@ =~= before + oneof_text(*schema, msg.fields@, *oneof));
        }
        assert(out@ =~= mid + oneofs_text(*schema, msg.fields@, msg.oneofs@, o + 1));
        o = o + 1;
    }
    push_str(&mut out, "}");
    assert(out@ =~= describe_text(*schema, m as int));
    string_from_chars(out.as_slice())
}

/// The description of the message type named `message_type` (leading dots
/// ignored), or `MessageTypeNotFound` with the name without its dots.
pub fn describe_in_schema(schema: &Schema, message_type: &str) -> (r: Result<
    String,
    ProtoDuckError,
>)
    requires
        schema.wf(),
    ensures
        match find_message_from(schema.messages@, trim_leading_dots(message_type@), 0) {
            Some(m) => r matches Ok(s) && s@ == describe_text(*schema, m),
            None => r matches Err(e) && e@ == ProtoDuckErrorView::MessageTypeNotFound(
                trim_leading_dots(message_type@),
            ),
        },
{
    let (found, name) = find_message(schema, message_type);
    match found {
        Some(m) => {
            proof {
                lemma_find_message_bounds(schema.messages@, trim_leading_dots(message_type@), 0);
                let k = find_message_from(schema.messages@, trim_leading_dots(message_type@), 0)->Some_0;
                assert(find_message_from(schema.messages@, trim_leading_dots(message_type@), 0) is Some);
                assert(0 <= k < schema.messages@.len());
                assert(schema.messages@.len() == schema.messages.len());
                assert(found == Some(k as usize));
                assert(m as int == k);
            }
            Ok(describe_message(schema, m))
        },
        None => Err(ProtoDuckError::MessageTypeNotFound(string_from_chars(name.as_slice()))),
    }
}

pub proof fn lemma_find_message_bounds(msgs: Seq<MessageSchema>, name: Seq<char>, i: int)
    ensures
        find_message_from(msgs, name, i) matches Some(k) ==> 0 <= k < msgs.len() && msgs[k].full_name@
            == name,
    decreases msgs.len() - i,
{
    if 0 <= i < msgs.len() && msgs[i].full_name@ != name {
        lemma_find_message_bounds(msgs, name, i + 1);
    }
}

/// The line of the field at position `k` of a description, written out:
/// two spaces, the label, the type, the name, ` = `, the decimal of the
/// field's own number and `;` with a line break.
pub open spec fn written_field_line(schema: Schema, f: FieldSchema) -> Seq<char> {
    "  "@ + field_label(f) + field_type_text(schema, f) + " "@ + f.name@ + " = "@
        + crate::text::nat_decimal(f.number as nat) + ";\n"@
}

proof fn lemma_fields_text_prefix(schema: Schema, fields: Seq<FieldSchema>, k: int, n: int)
    requires
        0 <= k <= n <= fields.len(),
    ensures
        fields_text(schema, fields, k).is_prefix_of(fields_text(schema, fields, n)),
    decreases n - k,
{
    if k < n {
        lemma_fields_text_prefix(schema, fields, k, n - 1);
        let a = fields_text(schema, fields, k);
        let b = fields_text(schema, fields, n - 1);
        let c = fields_text(schema, fields, n);
        assert(c == b + field_line(schema, fields[n - 1]));
        assert forall|i: int| 0 <= i < a.len() implies a[i] == c[i] by {
            assert(a[i] == b[i]);
        }
    }
}

/// A description lists every field on a line of its own, in declaration
/// order, and each line carries that field's own number: for every field
/// `k` of message type `m`, the description begins with the `message Name {`
/// line, the lines of the fields before `k`, and then the line of field `k`
/// ending in ` = ` and the decimal of its number.
pub proof fn law_description_lists_field_numbers(schema: Schema, m: int, k: int)
    requires
        0 <= m < schema.messages@.len(),
        0 <= k < schema.messages@[m].fields@.len(),
    ensures
        ("message "@ + schema.messages@[m].name@ + " {\n"@ + fields_text(
            schema,
            schema.messages@[m].fields@,
            k,
        ) + written_field_line(schema, schema.messages@[m].fields@[k])).is_prefix_of(
            describe_text(schema, m),
        ),
{
    let msg = schema.messages@[m];
    let fields = msg.fields@;
    let n = fields.len() as int;
    lemma_fields_text_prefix(schema, fields, k + 1, n);
    assert(fields_text(schema, fields, k + 1) == fields_text(schema, fields, k) + written_field_line(
        schema,
        fields[k],
    ));
    let head = "message "@ + msg.name@ + " {\n"@;
    let p = head + fields_text(schema, fields, k + 1);
    let d = describe_text(schema, m);
    assert(d == head + fields_text(schema, fields, n) + oneofs_text(
        schema,
        fields,
        msg.oneofs@,
        msg.oneofs@.len() as int,
    ) + "}"@);
    assert forall|i: int| 0 <= i < p.len() implies p[i] == d[i] by {
        if i < head.len() {
        } else {
            assert(p[i] == fields_text(schema, fields, k + 1)[i - head.len()]);
            assert(d[i] == fields_text(schema, fields, n)[i - head.len()]);
        }
    }
    assert(head + fields_text(schema, fields, k) + written_field_line(schema, fields[k]) =~= p);
}

} // verus!
