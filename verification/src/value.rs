//! The library's model of decoded protobuf values.
//!
//! A message holds, for each field of its type (in the order of the type's
//! fields), `Some(value)` when the field is set and `None` when it is not.

use vstd::prelude::*;

use crate::schema::Schema;

verus! {

/// A key of a protobuf map.
pub enum MapKey {
    Bool(bool),
    I32(i32),
    I64(i64),
    U32(u32),
    U64(u64),
    String(String),
}

/// The abstract value of a [`MapKey`].
pub enum MapKeyView {
    Bool(bool),
    I32(i32),
    I64(i64),
    U32(u32),
    U64(u64),
    String(Seq<char>),
}

impl View for MapKey {
    type V = MapKeyView;

    open spec fn view(&self) -> MapKeyView {
        match self {
            MapKey::Bool(b) => MapKeyView::Bool(*b),
            MapKey::I32(i) => MapKeyView::I32(*i),
            MapKey::I64(i) => MapKeyView::I64(*i),
            MapKey::U32(u) => MapKeyView::U32(*u),
            MapKey::U64(u) => MapKeyView::U64(*u),
            MapKey::String(s) => MapKeyView::String(s@),
        }
    }
}

/// A decoded protobuf value.
pub enum ProtoValue {
    Bool(bool),
    I32(i32),
    I64(i64),
    U32(u32),
    U64(u64),
    /// A `float` or `double`, held as the two texts that stand for it: the
    /// one that `to_string` gives and the one that JSON output gives.
    Float { display: String, json: String },
    String(String),
    Bytes(Vec<u8>),
    /// The number of an enum value.
    EnumNumber(i32),
    Message(MessageValue),
    List(Vec<ProtoValue>),
    /// The entries of a map field, in the order in which they are listed.
    MapEntries(Vec<(MapKey, ProtoValue)>),
}

/// A decoded message: the index of its type in the [`Schema`], and for each
/// field of that type the value it is set to, or `None` when it is not set.
pub struct MessageValue {
    pub type_index: usize,
    pub fields: Vec<Option<ProtoValue>>,
}

/// The abstract value of a [`ProtoValue`].
pub enum ValueView {
    Bool(bool),
    I32(i32),
    I64(i64),
    U32(u32),
    U64(u64),
    Float(Seq<char>, Seq<char>),
    String(Seq<char>),
    Bytes(Seq<u8>),
    EnumNumber(i32),
    Message(MessageView),
    List(Seq<ValueView>),
    MapEntries(Seq<(MapKeyView, ValueView)>),
}

/// The abstract value of a [`MessageValue`].
pub struct MessageView {
    pub type_index: usize,
    pub fields: Seq<Option<ValueView>>,
}

impl ProtoValue {
    /// The abstract value of `self`.
    pub open spec fn value_view(self) -> ValueView
        decreases self,
    {
        match self {
            ProtoValue::Bool(b) => ValueView::Bool(b),
            ProtoValue::I32(i) => ValueView::I32(i),
            ProtoValue::I64(i) => ValueView::I64(i),
            ProtoValue::U32(u) => ValueView::U32(u),
            ProtoValue::U64(u) => ValueView::U64(u),
            ProtoValue::Float { display, json } => ValueView::Float(display@, json@),
            ProtoValue::String(s) => ValueView::String(s@),
            ProtoValue::Bytes(b) => ValueView::Bytes(b@),
            ProtoValue::EnumNumber(n) => ValueView::EnumNumber(n),
            ProtoValue::Message(m) => ValueView::Message(
                MessageView {
                    type_index: m.type_index,
                    fields: Seq::new(
                        m.fields@.len(),
                        |i: int|
                            if 0 <= i < m.fields@.len() {
                                match m.fields@[i] {
                                    Some(x) => {
                                        proof {
                                            assert(decreases_to!(self => m));
                                            assert(decreases_to!(m => m.fields));
                                            assert(decreases_to!(m.fields => m.fields@));
                                            assert(decreases_to!(m.fields@ => m.fields@[i]));
                                            assert(decreases_to!(m.fields@[i] => x));
                                        }
                                        Some(x.value_view())
                                    },
                                    None => None,
                                }
                            } else {
                                None
                            },
                    ),
                },
            ),
            ProtoValue::List(items) => ValueView::List(
                Seq::new(
                    items@.len(),
                    |i: int|
                        if 0 <= i < items@.len() {
                            proof {
                                assert(decreases_to!(self => items));
                                assert(decreases_to!(items => items@));
                                assert(decreases_to!(items@ => items@[i]));
                            }
                            items@[i].value_view()
                        } else {
                            ValueView::Bool(false)
                        },
                ),
            ),
            ProtoValue::MapEntries(e) => ValueView::MapEntries(
                Seq::new(
                    e@.len(),
                    |i: int|
                        if 0 <= i < e@.len() {
                            proof {
                                assert(decreases_to!(self => e));
                                assert(decreases_to!(e => e@));
                                assert(decreases_to!(e@ => e@[i]));
                                assert(decreases_to!(e@[i] => e@[i].1));
                            }
                            (e@[i].0@, e@[i].1.value_view())
                        } else {
                            (MapKeyView::Bool(false), ValueView::Bool(false))
                        },
                ),
            ),
        }
    }
}

impl View for ProtoValue {
    type V = ValueView;

    open spec fn view(&self) -> ValueView {
        self.value_view()
    }
}

impl View for MessageValue {
    type V = MessageView;

    open spec fn view(&self) -> MessageView {
        match ProtoValue::Message(*self).value_view() {
            ValueView::Message(m) => m,
            _ => MessageView { type_index: 0, fields: Seq::empty() },
        }
    }
}

/// Unfolds the view of a list.
pub proof fn lemma_list_view(items: Vec<ProtoValue>)
    ensures
        ProtoValue::List(items)@ matches ValueView::List(vs) && vs.len() == items@.len() && (
        forall|i: int| 0 <= i < vs.len() ==> #[trigger] vs[i] == items@[i]@),
{
}

/// Unfolds the view of a map.
pub proof fn lemma_map_view(entries: Vec<(MapKey, ProtoValue)>)
    ensures
        ProtoValue::MapEntries(entries)@ matches ValueView::MapEntries(vs) && vs.len()
            == entries@.len() && (forall|i: int|
            0 <= i < vs.len() ==> #[trigger] vs[i] == (entries@[i].0@, entries@[i].1@)),
{
}

/// Unfolds the view of a message.
pub proof fn lemma_message_view(m: MessageValue)
    ensures
        ProtoValue::Message(m)@ == ValueView::Message(m@),
        m@.type_index == m.type_index,
        m@.fields.len() == m.fields@.len(),
        forall|i: int|
            0 <= i < m.fields@.len() ==> #[trigger] m@.fields[i] == match m.fields@[i] {
                Some(x) => Some(x@),
                None => None::<ValueView>,
            },
{
}

} // verus!

verus! {

/// A value that fits its schema: every message's type is a type of the
/// schema, and every byte string is short enough for its base64 text to have
/// a length that fits in `usize`.
pub open spec fn value_ok(schema: Schema, v: ValueView) -> bool
    decreases v,
{
    match v {
        ValueView::Bytes(b) => b.len() <= usize::MAX / 2,
        ValueView::Message(mv) => {
            &&& mv.type_index < schema.messages@.len()
            &&& forall|j: int|
                0 <= j < mv.fields.len() ==> match #[trigger] mv.fields[j] {
                    Some(x) => {
                        proof {
                            assert(decreases_to!(v => mv));
                            assert(decreases_to!(mv => mv.fields));
                            assert(decreases_to!(mv.fields => mv.fields[j]));
                        }
                        value_ok(schema, x)
                    },
                    None => true,
                }
        },
        ValueView::List(items) => forall|i: int|
            0 <= i < items.len() ==> {
                proof {
                    assert(decreases_to!(v => items));
                }
                value_ok(schema, #[trigger] items[i])
            },
        ValueView::MapEntries(e) => forall|i: int|
            0 <= i < e.len() ==> {
                proof {
                    assert(decreases_to!(v => e));
                    assert(decreases_to!(e => e[i]));
                }
                value_ok(schema, #[trigger] e[i].1)
            },
        _ => true,
    }
}

} // verus!

verus! {

/// A copy of a map key.
pub fn copy_map_key(k: &MapKey) -> (r: MapKey)
    ensures
        r@ == k@,
{
    match k {
        MapKey::Bool(b) => MapKey::Bool(*b),
        MapKey::I32(i) => MapKey::I32(*i),
        MapKey::I64(i) => MapKey::I64(*i),
        MapKey::U32(u) => MapKey::U32(*u),
        MapKey::U64(u) => MapKey::U64(*u),
        MapKey::String(s) => MapKey::String(s.clone()),
    }
}

/// Whether two map keys are equal.
pub fn map_key_eq(a: &MapKey, b: &MapKey) -> (r: bool)
    ensures
        r == (a@ == b@),
{
    match (a, b) {
        (MapKey::Bool(x), MapKey::Bool(y)) => *x == *y,
        (MapKey::I32(x), MapKey::I32(y)) => *x == *y,
        (MapKey::I64(x), MapKey::I64(y)) => *x == *y,
        (MapKey::U32(x), MapKey::U32(y)) => *x == *y,
        (MapKey::U64(x), MapKey::U64(y)) => *x == *y,
        (MapKey::String(x), MapKey::String(y)) => *x == *y,
        _ => false,
    }
}

/// A copy of a byte string.
pub fn copy_bytes(b: &Vec<u8>) -> (r: Vec<u8>)
    ensures
        r@ == b@,
{
    let mut out: Vec<u8> = Vec::new();
    let mut i: usize = 0;
    while i < b.len()
        invariant
            i <= b@.len(),
            out@ == b@.subrange(0, i as int),
        decreases b.len() - i,
    {
        out.push(b[i]);
        i = i + 1;
        assert(out@ =~= b@.subrange(0, i as int));
    }
    assert(b@.subrange(0, b@.len() as int) =~= b@);
    out
}

/// A copy of a value.
pub fn copy_value(v: &ProtoValue) -> (r: ProtoValue)
    ensures
        r@ == v@,
    decreases v,
{
    match v {
        ProtoValue::Bool(b) => ProtoValue::Bool(*b),
        ProtoValue::I32(i) => ProtoValue::I32(*i),
        ProtoValue::I64(i) => ProtoValue::I64(*i),
        ProtoValue::U32(u) => ProtoValue::U32(*u),
        ProtoValue::U64(u) => ProtoValue::U64(*u),
        ProtoValue::Float { display, json } => ProtoValue::Float {
            display: display.clone(),
            json: json.clone(),
        },
        ProtoValue::String(s) => ProtoValue::String(s.clone()),
        ProtoValue::Bytes(b) => ProtoValue::Bytes(copy_bytes(b)),
        ProtoValue::EnumNumber(n) => ProtoValue::EnumNumber(*n),
        ProtoValue::Message(m) => {
            proof {
                assert(decreases_to!(*v => (*v)->Message_0));
            }
            ProtoValue::Message(copy_message(m))
        },
        ProtoValue::List(items) => {
            let mut out: Vec<ProtoValue> = Vec::new();
            let mut i: usize = 0;
            while i < items.len()
                invariant
                    *v == ProtoValue::List(*items),
                    i <= items@.len(),
                    out@.len() == i,
                    forall|k: int| 0 <= k < i ==> #[trigger] out@[k]@ == items@[k]@,
                decreases items.len() - i,
            {
                proof {
                    assert(decreases_to!(*v => (*v)->List_0));
                    assert(decreases_to!(*items => items@));
                    assert(decreases_to!(items@ => items@[i as int]));
                }
                let c = copy_value(&items[i]);
                out.push(c);
                i = i + 1;
            }
            proof {
                lemma_list_view(out);
                lemma_list_view(*items);
                let a = ProtoValue::List(out)@->List_0;
                let b = ProtoValue::List(*items)@->List_0;
                assert(a =~= b);
            }
            ProtoValue::List(out)
        },
        ProtoValue::MapEntries(entries) => {
            let mut out: Vec<(MapKey, ProtoValue)> = Vec::new();
            let mut i: usize = 0;
            while i < entries.len()
                invariant
                    *v == ProtoValue::MapEntries(*entries),
                    i <= entries@.len(),
                    out@.len() == i,
                    forall|k: int|
                        0 <= k < i ==> (#[trigger] out@[k]).0@ == entries@[k].0@ && out@[k].1@
                            == entries@[k].1@,
                decreases entries.len() - i,
            {
                proof {
                    assert(decreases_to!(*v => (*v)->MapEntries_0));
                    assert(decreases_to!(*entries => entries@));
                    assert(decreases_to!(entries@ => entries@[i as int]));
                    assert(decreases_to!(entries@[i as int] => entries@[i as int].1));
                }
                let k = copy_map_key(&entries[i].0);
                let c = copy_value(&entries[i].1);
                out.push((k, c));
                i = i + 1;
            }
            proof {
                lemma_map_view(out);
                lemma_map_view(*entries);
                let a = ProtoValue::MapEntries(out)@->MapEntries_0;
                let b = ProtoValue::MapEntries(*entries)@->MapEntries_0;
                assert(a =~= b);
            }
            ProtoValue::MapEntries(out)
        },
    }
}

/// A copy of a message.
pub fn copy_message(m: &MessageValue) -> (r: MessageValue)
    ensures
        r@ == m@,
    decreases m,
{
    let mut out: Vec<Option<ProtoValue>> = Vec::new();
    let mut i: usize = 0;
    while i < m.fields.len()
        invariant
            i <= m.fields@.len(),
            out@.len() == i,
            forall|k: int|
                0 <= k < i ==> match (#[trigger] out@[k], m.fields@[k]) {
                    (Some(a), Some(b)) => a@ == b@,
                    (None, None) => true,
                    _ => false,
                },
        decreases m.fields.len() - i,
    {
        match &m.fields[i] {
            Some(x) => {
                proof {
                    assert(decreases_to!(*m => m.fields));
                    assert(decreases_to!(m.fields => m.fields@));
                    assert(decreases_to!(m.fields@ => m.fields@[i as int]));
                    assert(decreases_to!(m.fields@[i as int] => *x));
                }
                let c = copy_value(x);
                out.push(Some(c));
            },
            None => {
                out.push(None);
            },
        }
        i = i + 1;
    }
    let r = MessageValue { type_index: m.type_index, fields: out };
    proof {
        lemma_message_view(r);
        lemma_message_view(*m);
        assert(r@.fields =~= m@.fields);
    }
    r
}

} // verus!
