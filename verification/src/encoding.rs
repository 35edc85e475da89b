//! Base64 text of byte strings, and JSON: the library's JSON values and
//! their text.

use vstd::prelude::*;

use base64::Engine;

use crate::text::push_str;

verus! {

/// The character of a 6-bit group in the standard base64 alphabet.
pub open spec fn base64_char(n: nat) -> char {
    if n < 26 {
        (65 + n) as char
    } else if n < 52 {
        (97 + (n - 26)) as char
    } else if n < 62 {
        (48 + (n - 52)) as char
    } else if n == 62 {
        '+'
    } else {
        '/'
    }
}

/// Standard base64 (RFC 4648, section 4) with `=` padding: each group of three
/// bytes becomes four characters; a final group of one or two bytes becomes
/// two or three characters followed by `=` up to four.
pub open spec fn base64_standard(b: Seq<u8>) -> Seq<char>
    decreases b.len(),
{
    if b.len() == 0 {
        seq![]
    } else if b.len() == 1 {
        let n = b[0] as nat * 16;
        seq![base64_char(n / 64), base64_char(n % 64), '=', '=']
    } else if b.len() == 2 {
        let n = (b[0] as nat * 256 + b[1] as nat) * 4;
        seq![base64_char(n / 4096), base64_char((n / 64) % 64), base64_char(n % 64), '=']
    } else {
        let n = b[0] as nat * 65536 + b[1] as nat * 256 + b[2] as nat;
        seq![
            base64_char(n / 262144),
            base64_char((n / 4096) % 64),
            base64_char((n / 64) % 64),
            base64_char(n % 64),
        ] + base64_standard(b.subrange(3, b.len() as int))
    }
}

/// `base64::engine::general_purpose::STANDARD.encode`: the standard base64
/// text of `bytes`, padded with `=`. Its size computation panics when the
/// text's length would overflow `usize`, hence the bound on the length.
#[verifier::external_body]
pub(crate) fn base64_encode(bytes: &[u8]) -> (r: String)
    requires
        bytes@.len() <= usize::MAX / 2,
    ensures
        r@ == base64_standard(bytes@),
{
    base64::engine::general_purpose::STANDARD.encode(bytes)
}

/// The hexadecimal digit (lower case) of `n < 16`.
pub open spec fn hex_digit(n: nat) -> char {
    if n < 10 {
        (48 + n) as char
    } else {
        (87 + n) as char
    }
}

/// How JSON text writes one character inside a string literal: `"` and `\`
/// behind a backslash, the control characters backspace, tab, line feed,
/// form feed and carriage return as `\b`, `\t`, `\n`, `\f`, `\r`, the other
/// control characters below U+0020 as `\u00xx`, and every other character as
/// itself.
pub open spec fn json_escape_char(c: char) -> Seq<char> {
    if c == '"' {
        seq!['\\', '"']
    } else if c == '\\' {
        seq!['\\', '\\']
    } else if c == '\u{8}' {
        seq!['\\', 'b']
    } else if c == '\t' {
        seq!['\\', 't']
    } else if c == '\n' {
        seq!['\\', 'n']
    } else if c == '\u{c}' {
        seq!['\\', 'f']
    } else if c == '\r' {
        seq!['\\', 'r']
    } else if (c as nat) < 32 {
        seq!['\\', 'u', '0', '0', hex_digit((c as nat) / 16), hex_digit((c as nat) % 16)]
    } else {
        seq![c]
    }
}

/// The escaped characters of `s`.
pub open spec fn json_escape(s: Seq<char>) -> Seq<char>
    decreases s.len(),
{
    if s.len() == 0 {
        seq![]
    } else {
        json_escape(s.drop_last()) + json_escape_char(s.last())
    }
}

/// The JSON string literal of `s`.
pub open spec fn json_string_literal(s: Seq<char>) -> Seq<char> {
    seq!['"'] + json_escape(s) + seq!['"']
}

/// `serde_json::to_string` on a string: its JSON string literal. The
/// serialisation of a `str` does not fail.
#[verifier::external_body]
fn json_quote(s: &str) -> (r: Result<String, serde_json::Error>)
    ensures
        r is Ok,
        r.unwrap()@ == json_string_literal(s@),
{
    serde_json::to_string(s)
}

/// A JSON value as this library builds it.
pub enum JsonValue {
    Bool(bool),
    /// A number, held as its JSON text.
    Number(String),
    Str(String),
    Array(Vec<JsonValue>),
    /// The members of an object, in the order of their keys.
    Object(Vec<(String, JsonValue)>),
}

/// The abstract value of a [`JsonValue`].
pub enum JsonView {
    Bool(bool),
    Number(Seq<char>),
    Str(Seq<char>),
    Array(Seq<JsonView>),
    Object(Seq<(Seq<char>, JsonView)>),
}

impl JsonValue {
    /// The abstract value of `self`.
    pub open spec fn json_view(self) -> JsonView
        decreases self,
    {
        match self {
            JsonValue::Bool(b) => JsonView::Bool(b),
            JsonValue::Number(t) => JsonView::Number(t@),
            JsonValue::Str(s) => JsonView::Str(s@),
            JsonValue::Array(items) => JsonView::Array(
                Seq::new(
                    items@.len(),
                    |i: int|
                        if 0 <= i < items@.len() {
                            proof {
                                assert(decreases_to!(self => items));
                                assert(decreases_to!(items => items@));
                                assert(decreases_to!(items@ => items@[i]));
                            }
                            items@[i].json_view()
                        } else {
                            JsonView::Bool(false)
                        },
                ),
            ),
            JsonValue::Object(members) => JsonView::Object(
                Seq::new(
                    members@.len(),
                    |i: int|
                        if 0 <= i < members@.len() {
                            proof {
                                assert(decreases_to!(self => members));
                                assert(decreases_to!(members => members@));
                                assert(decreases_to!(members@ => members@[i]));
                                assert(decreases_to!(members@[i] => members@[i].1));
                            }
                            (members@[i].0@, members@[i].1.json_view())
                        } else {
                            (Seq::empty(), JsonView::Bool(false))
                        },
                ),
            ),
        }
    }
}

impl View for JsonValue {
    type V = JsonView;

    open spec fn view(&self) -> JsonView {
        self.json_view()
    }
}

/// The views of a sequence of object members.
pub open spec fn members_view(m: Seq<(String, JsonValue)>) -> Seq<(Seq<char>, JsonView)> {
    Seq::new(m.len(), |i: int| (m[i].0@, m[i].1@))
}

/// Unfolds the view of an array.
pub proof fn lemma_array_view(items: Vec<JsonValue>)
    ensures
        JsonValue::Array(items)@ == JsonView::Array(Seq::new(items@.len(), |i: int| items@[i]@)),
{
    assert(JsonValue::Array(items)@ matches JsonView::Array(s) && s =~= Seq::new(
        items@.len(),
        |i: int| items@[i]@,
    ));
}

/// Unfolds the view of an object.
pub proof fn lemma_object_view(members: Vec<(String, JsonValue)>)
    ensures
        JsonValue::Object(members)@ == JsonView::Object(members_view(members@)),
{
    assert(JsonValue::Object(members)@ matches JsonView::Object(s) && s =~= members_view(
        members@,
    ));
}

/// Code-point order of strings (the order of `String`'s `Ord`).
pub open spec fn text_lt(a: Seq<char>, b: Seq<char>) -> bool
    decreases a.len(),
{
    if a.len() == 0 {
        b.len() > 0
    } else if b.len() == 0 {
        false
    } else if a[0] != b[0] {
        a[0] < b[0]
    } else {
        text_lt(a.drop_first(), b.drop_first())
    }
}

/// Inserting `(k, v)` into members ordered by key, as a map ordered by key
/// does: a member with key `k` has its value replaced, otherwise the member
/// goes before the first greater key.
pub open spec fn obj_insert(
    e: Seq<(Seq<char>, JsonView)>,
    k: Seq<char>,
    v: JsonView,
) -> Seq<(Seq<char>, JsonView)>
    decreases e.len(),
{
    if e.len() == 0 {
        seq![(k, v)]
    } else if e[0].0 == k {
        seq![(k, v)] + e.drop_first()
    } else if text_lt(k, e[0].0) {
        seq![(k, v)] + e
    } else {
        seq![e[0]] + obj_insert(e.drop_first(), k, v)
    }
}

/// `sep` between consecutive items of `parts`.
pub open spec fn join(parts: Seq<Seq<char>>, sep: Seq<char>) -> Seq<char>
    decreases parts.len(),
{
    if parts.len() == 0 {
        seq![]
    } else if parts.len() == 1 {
        parts[0]
    } else {
        join(parts.drop_last(), sep) + sep + parts.last()
    }
}

/// The compact JSON text of a value (what `serde_json::to_string` gives):
/// arrays and objects list their items separated by `,`, members as
/// `"key":value`, with no white space.
pub open spec fn json_text(j: JsonView) -> Seq<char>
    decreases j, 0int,
{
    match j {
        JsonView::Bool(b) => crate::text::bool_text(b),
        JsonView::Number(t) => t,
        JsonView::Str(s) => json_string_literal(s),
        JsonView::Array(items) => {
            proof {
                assert(decreases_to!(j => items));
            }
            seq!['['] + json_items_text(items, items.len() as int) + seq![']']
        },
        JsonView::Object(members) => {
            proof {
                assert(decreases_to!(j => members));
            }
            seq!['{'] + json_members_text(members, members.len() as int) + seq!['}']
        },
    }
}

/// The texts of `items[0..n)`, separated by `,`.
pub open spec fn json_items_text(items: Seq<JsonView>, n: int) -> Seq<char>
    decreases items, n,
{
    if n <= 0 || n > items.len() {
        seq![]
    } else {
        proof {
            assert(decreases_to!(items => items[n - 1]));
        }
        if n == 1 {
            json_text(items[0])
        } else {
            json_items_text(items, n - 1) + seq![','] + json_text(items[n - 1])
        }
    }
}

/// The members `members[0..n)` as `"key":value`, separated by `,`.
pub open spec fn json_members_text(members: Seq<(Seq<char>, JsonView)>, n: int) -> Seq<char>
    decreases members, n,
{
    if n <= 0 || n > members.len() {
        seq![]
    } else {
        proof {
            assert(decreases_to!(members => members[n - 1]));
            assert(decreases_to!(members[n - 1] => members[n - 1].1));
        }
        let m = json_string_literal(members[n - 1].0) + seq![':'] + json_text(members[n - 1].1);
        if n == 1 {
            m
        } else {
            json_members_text(members, n - 1) + seq![','] + m
        }
    }
}

} // verus!

verus! {

proof fn lemma_text_lt_irreflexive(a: Seq<char>)
    ensures
        !text_lt(a, a),
    decreases a.len(),
{
    if a.len() > 0 {
        lemma_text_lt_irreflexive(a.drop_first());
    }
}

proof fn lemma_text_lt_total(a: Seq<char>, b: Seq<char>)
    ensures
        a != b ==> (text_lt(a, b) || text_lt(b, a)),
        !(text_lt(a, b) && text_lt(b, a)),
    decreases a.len(),
{
    if a.len() > 0 && b.len() > 0 {
        lemma_text_lt_total(a.drop_first(), b.drop_first());
        if a[0] == b[0] && a.drop_first() == b.drop_first() {
            assert(a =~= seq![a[0]] + a.drop_first());
            assert(b =~= seq![b[0]] + b.drop_first());
        }
    } else if a.len() == 0 && b.len() == 0 {
        assert(a =~= b);
    }
}

/// Whether `a` comes before `b` in code-point order.
pub fn text_less(a: &[char], b: &[char]) -> (r: bool)
    ensures
        r == text_lt(a@, b@),
{
    let mut i: usize = 0;
    assert(a@.skip(0) =~= a@);
    assert(b@.skip(0) =~= b@);
    while i < a.len() && i < b.len() && a[i] == b[i]
        invariant
            i <= a@.len(),
            i <= b@.len(),
            a@.subrange(0, i as int) == b@.subrange(0, i as int),
            text_lt(a@, b@) == text_lt(a@.skip(i as int), b@.skip(i as int)),
        decreases a.len() - i,
    {
        proof {
            let sa = a@.skip(i as int);
            let sb = b@.skip(i as int);
            assert(sa.drop_first() =~= a@.skip(i + 1));
            assert(sb.drop_first() =~= b@.skip(i + 1));
            assert(a@.subrange(0, i + 1) =~= a@.subrange(0, i as int).push(a@[i as int]));
            assert(b@.subrange(0, i + 1) =~= b@.subrange(0, i as int).push(b@[i as int]));
        }
        i = i + 1;
    }
    if i == a.len() {
        i < b.len()
    } else if i == b.len() {
        false
    } else {
        a[i] < b[i]
    }
}

proof fn lemma_obj_insert_at(
    e: Seq<(Seq<char>, JsonView)>,
    k: Seq<char>,
    v: JsonView,
    i: int,
)
    requires
        0 <= i <= e.len(),
        forall|j: int| 0 <= j < i ==> #[trigger] text_lt(e[j].0, k),
        i < e.len() ==> !text_lt(e[i].0, k),
    ensures
        i < e.len() && e[i].0 == k ==> obj_insert(e, k, v) == e.take(i) + seq![(k, v)] + e.skip(
            i + 1,
        ),
        !(i < e.len() && e[i].0 == k) ==> obj_insert(e, k, v) == e.take(i) + seq![(k, v)]
            + e.skip(i),
    decreases i,
{
    if i == 0 {
        if e.len() > 0 {
            lemma_text_lt_total(e[0].0, k);
            assert(e.skip(1) =~= e.drop_first());
        }
        assert(e.skip(0) =~= e);
        assert(e.take(0) =~= Seq::<(Seq<char>, JsonView)>::empty());
    } else {
        let t = e.drop_first();
        assert(text_lt(e[0].0, k));
        lemma_text_lt_irreflexive(k);
        lemma_text_lt_total(e[0].0, k);
        assert forall|j: int| 0 <= j < i - 1 implies #[trigger] text_lt(t[j].0, k) by {
            assert(t[j] == e[j + 1]);
            assert(text_lt(e[j + 1].0, k));
        }
        lemma_obj_insert_at(t, k, v, i - 1);
        assert(e.take(i) =~= seq![e[0]] + t.take(i - 1));
        assert(e.skip(i) =~= t.skip(i - 1));
        if i < e.len() {
            assert(e.skip(i + 1) =~= t.skip(i));
        }
    }
}

/// Inserts `(key, val)` into members ordered by key (see [`obj_insert`]).
pub fn object_insert(members: &mut Vec<(String, JsonValue)>, key: String, val: JsonValue)
    ensures
        members_view(final(members)@) == obj_insert(members_view(old(members)@), key@, val@),
{
    let ghost e = members_view(members@);
    let kc = crate::text::str_to_chars(key.as_str());
    let mut i: usize = 0;
    let mut found = false;
    while i < members.len()
        invariant
            i <= members@.len(),
            e == members_view(members@),
            kc@ == key@,
            forall|j: int| 0 <= j < i ==> #[trigger] text_lt(e[j].0, key@),
        ensures
            i <= members@.len(),
            e == members_view(members@),
            forall|j: int| 0 <= j < i ==> #[trigger] text_lt(e[j].0, key@),
            i < members@.len() ==> !text_lt(e[i as int].0, key@) && found == (e[i as int].0
                == key@),
        decreases members.len() - i,
    {
        let mc = crate::text::str_to_chars(members[i].0.as_str());
        if !text_less(mc.as_slice(), kc.as_slice()) {
            found = crate::text::chars_eq(mc.as_slice(), kc.as_slice());
            break;
        }
        i = i + 1;
    }
    proof {
        lemma_obj_insert_at(e, key@, val@, i as int);
    }
    let ghost kv = key@;
    let ghost vv = val@;
    if i < members.len() && found {
        members.remove(i);
        members.insert(i, (key, val));
        assert(members_view(members@) =~= e.take(i as int) + seq![(kv, vv)] + e.skip(i + 1));
    } else {
        members.insert(i, (key, val));
        assert(members_view(members@) =~= e.take(i as int) + seq![(kv, vv)] + e.skip(i as int));
    }
}

/// Appends the compact JSON text of `v` to `out`.
pub fn write_json(v: &JsonValue, out: &mut Vec<char>)
    ensures
        final(out)@ == old(out)@ + json_text(v@),
    decreases v,
{
    match v {
        JsonValue::Bool(b) => {
            let t = crate::text::bool_chars(*b);
            crate::text::push_chars(out, t.as_slice());
            assert(out@ == old(out)@ + json_text(v@));
        },
        JsonValue::Number(t) => {
            crate::text::push_str(out, t.as_str());
            assert(out@ == old(out)@ + json_text(v@));
        },
        JsonValue::Str(s) => {
            match json_quote(s.as_str()) {
                Ok(t) => crate::text::push_str(out, t.as_str()),
                Err(_) => {
                    proof {
                        assert(false);
                    }
                },
            }
            assert(out@ == old(out)@ + json_text(v@));
        },
        JsonValue::Array(items) => {
            let ghost start = out@;
            proof {
                lemma_array_view(*items);
            }
            let ghost iv = Seq::new(items@.len(), |k: int| items@[k]@);
            out.push('[');
            let mut i: usize = 0;
            while i < items.len()
                invariant
                    *v == JsonValue::Array(*items),
                    i <= items@.len(),
                    iv == Seq::new(items@.len(), |k: int| items@[k]@),
                    out@ == start + seq!['['] + json_items_text(iv, i as int),
                decreases items.len() - i,
            {
                proof {
                    assert(decreases_to!(*v => (*v)->Array_0));
                    assert(decreases_to!(*items => items@));
                    assert(decreases_to!(items@ => items@[i as int]));
                }
                if i > 0 {
                    out.push(',');
                }
                write_json(&items[i], out);
                i = i + 1;
            }
            out.push(']');
        },
        JsonValue::Object(members) => {
            let ghost start = out@;
            proof {
                lemma_object_view(*members);
            }
            let ghost mv = members_view(members@);
            out.push('{');
            let mut i: usize = 0;
            while i < members.len()
                invariant
                    *v == JsonValue::Object(*members),
                    i <= members@.len(),
                    mv == members_view(members@),
                    out@ == start + seq!['{'] + json_members_text(mv, i as int),
                decreases members.len() - i,
            {
                proof {
                    assert(decreases_to!(*v => (*v)->Object_0));
                    assert(decreases_to!(*members => members@));
                    assert(decreases_to!(members@ => members@[i as int]));
                    assert(decreases_to!(members@[i as int] => members@[i as int].1));
                }
                if i > 0 {
                    out.push(',');
                }
                match json_quote(members[i].0.as_str()) {
                    Ok(t) => crate::text::push_str(out, t.as_str()),
                    Err(_) => {
                        proof {
                            assert(false);
                        }
                    },
                }
                out.push(':');
                write_json(&members[i].1, out);
                i = i + 1;
            }
            out.push('}');
        },
    }
}

/// The compact JSON text of `v` (`serde_json::to_string` of the value).
pub fn json_to_string(v: &JsonValue) -> (r: String)
    ensures
        r@ == json_text(v@),
{
    let mut out: Vec<char> = Vec::new();
    write_json(v, &mut out);
    assert(out@ =~= json_text(v@));
    crate::text::string_from_chars(out.as_slice())
}

} // verus!

verus! {

/// Members whose keys strictly increase (so no key appears twice).
pub open spec fn keys_ordered(e: Seq<(Seq<char>, JsonView)>) -> bool {
    forall|i: int, j: int| 0 <= i < j < e.len() ==> text_lt(#[trigger] e[i].0, #[trigger] e[j].0)
}

/// Every object within `j` (`j` itself included) has strictly increasing keys.
pub open spec fn json_objects_ordered(j: JsonView) -> bool
    decreases j,
{
    match j {
        JsonView::Array(items) => forall|i: int|
            0 <= i < items.len() ==> {
                proof {
                    assert(decreases_to!(j => items));
                }
                json_objects_ordered(#[trigger] items[i])
            },
        JsonView::Object(members) => keys_ordered(members) && forall|i: int|
            0 <= i < members.len() ==> {
                proof {
                    assert(decreases_to!(j => members));
                    assert(decreases_to!(members => members[i]));
                }
                json_objects_ordered(#[trigger] members[i].1)
            },
        _ => true,
    }
}

proof fn lemma_text_lt_transitive(a: Seq<char>, b: Seq<char>, c: Seq<char>)
    requires
        text_lt(a, b),
        text_lt(b, c),
    ensures
        text_lt(a, c),
    decreases a.len(),
{
    if a.len() > 0 && b.len() > 0 && c.len() > 0 && a[0] == b[0] && b[0] == c[0] {
        lemma_text_lt_transitive(a.drop_first(), b.drop_first(), c.drop_first());
    }
}

/// A property of members that holds of every member of `e` and of `(k, v)`
/// holds of every member after the insertion.
pub proof fn lemma_obj_insert_all(
    e: Seq<(Seq<char>, JsonView)>,
    k: Seq<char>,
    v: JsonView,
    p: spec_fn((Seq<char>, JsonView)) -> bool,
)
    requires
        forall|j: int| 0 <= j < e.len() ==> p(#[trigger] e[j]),
        p((k, v)),
    ensures
        forall|j: int|
            0 <= j < obj_insert(e, k, v).len() ==> p(#[trigger] obj_insert(e, k, v)[j]),
    decreases e.len(),
{
    if e.len() > 0 && e[0].0 != k && !text_lt(k, e[0].0) {
        let t = e.drop_first();
        assert forall|j: int| 0 <= j < t.len() implies p(#[trigger] t[j]) by {
            assert(t[j] == e[j + 1]);
        }
        lemma_obj_insert_all(t, k, v, p);
        let r = obj_insert(e, k, v);
        assert forall|j: int| 0 <= j < r.len() implies p(#[trigger] r[j]) by {
            if j > 0 {
                assert(r[j] == obj_insert(t, k, v)[j - 1]);
            }
        }
    } else if e.len() > 0 {
        let r = obj_insert(e, k, v);
        assert forall|j: int| 0 <= j < r.len() implies p(#[trigger] r[j]) by {
            if j > 0 && e[0].0 == k {
                assert(r[j] == e[j]);
            }
            if j > 0 && e[0].0 != k {
                assert(r[j] == e[j - 1]);
            }
        }
    }
}

/// Inserting into members with strictly increasing keys keeps them so.
pub proof fn lemma_obj_insert_ordered(e: Seq<(Seq<char>, JsonView)>, k: Seq<char>, v: JsonView)
    requires
        keys_ordered(e),
    ensures
        keys_ordered(obj_insert(e, k, v)),
    decreases e.len(),
{
    let r = obj_insert(e, k, v);
    if e.len() == 0 {
    } else if e[0].0 == k {
        assert forall|i: int, j: int| 0 <= i < j < r.len() implies text_lt(
            #[trigger] r[i].0,
            #[trigger] r[j].0,
        ) by {
            assert(r[j] == e[j]);
            if i > 0 {
                assert(r[i] == e[i]);
            }
        }
    } else if text_lt(k, e[0].0) {
        assert forall|i: int, j: int| 0 <= i < j < r.len() implies text_lt(
            #[trigger] r[i].0,
            #[trigger] r[j].0,
        ) by {
            assert(r[j] == e[j - 1]);
            if i > 0 {
                assert(r[i] == e[i - 1]);
            } else if j > 1 {
                assert(text_lt(e[0].0, e[j - 1].0));
                lemma_text_lt_transitive(k, e[0].0, e[j - 1].0);
            }
        }
    } else {
        let t = e.drop_first();
        lemma_text_lt_total(e[0].0, k);
        assert(keys_ordered(t)) by {
            assert forall|i: int, j: int| 0 <= i < j < t.len() implies text_lt(
                #[trigger] t[i].0,
                #[trigger] t[j].0,
            ) by {
                assert(t[i] == e[i + 1]);
                assert(t[j] == e[j + 1]);
            }
        }
        lemma_obj_insert_ordered(t, k, v);
        let b = e[0].0;
        let p = |m: (Seq<char>, JsonView)| text_lt(b, m.0);
        assert forall|j: int| 0 <= j < t.len() implies p(#[trigger] t[j]) by {
            assert(t[j] == e[j + 1]);
        }
        lemma_obj_insert_all(t, k, v, p);
        let rt = obj_insert(t, k, v);
        assert forall|i: int, j: int| 0 <= i < j < r.len() implies text_lt(
            #[trigger] r[i].0,
            #[trigger] r[j].0,
        ) by {
            assert(r[j] == rt[j - 1]);
            if i > 0 {
                assert(r[i] == rt[i - 1]);
            } else {
                assert(p(rt[j - 1]));
            }
        }
    }
}

} // verus!
