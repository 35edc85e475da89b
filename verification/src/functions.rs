//! What the SQL functions compute for one row: the report of a schema load,
//! a message decoded to JSON text, and one field of a decoded message.

use vstd::prelude::*;

use crate::descriptor_pool::{decode_to_model, DescriptorPoolState};
use crate::encoding::{join, json_text, json_to_string};
use crate::error::{ProtoDuckError, ProtoDuckErrorView};
use crate::schema::{find_message_from, trim_leading_dots};
use crate::text::{nat_decimal, push_str, push_chars, str_to_chars, string_from_chars, u64_decimal};
use crate::type_mapping::{extract_from_model, extract_spec, message_json, model_to_json, text_outcome};
use crate::value::{value_ok, MessageView, ValueView};

verus! {

/// The report of a schema load that registered the types `names`.
pub open spec fn loaded_text(names: Seq<Seq<char>>) -> Seq<char> {
    "Loaded "@ + nat_decimal(names.len()) + " message type(s): "@ + join(names, ", "@)
}

/// `Loaded N message type(s): a, b, …` for the type names `types`.
pub fn loaded_types_report(types: &Vec<String>) -> (r: String)
    ensures
        r@ == loaded_text(types@.map_values(|s: String| s@)),
{
    let ghost names = types@.map_values(|s: String| s@);
    let mut out: Vec<char> = Vec::new();
    push_str(&mut out, "Loaded ");
    push_chars(&mut out, u64_decimal(types.len() as u64).as_slice());
    push_str(&mut out, " message type(s): ");
    let ghost start = out@;
    let mut i: usize = 0;
    while i < types.len()
        invariant
            i <= types@.len(),
            names == types@.map_values(|s: String| s@),
            out@ == start + join(names.take(i as int), ", "@),
        decreases types@.len() - i,
    {
        proof {
            assert(names.take(i + 1).drop_last() =~= names.take(i as int));
            assert(names.take(i + 1).last() == types@[i as int]@);
        }
        if i > 0 {
            push_str(&mut out, ", ");
        }
        push_chars(&mut out, str_to_chars(types[i].as_str()).as_slice());
        proof {
            if i == 0 {
                assert(names.take(1) =~= seq![types@[0]@]);
            }
            assert(out@ =~= start + join(names.take(i + 1), ", "@));
        }
        i = i + 1;
    }
    proof {
        assert(names.take(types@.len() as int) =~= names);
        assert(names.len() == types@.len());
    }
    assert(out@ =~= loaded_text(names));
    string_from_chars(out.as_slice())
}

/// The error for a decoded message without a model; no registry that
/// decodes a message lacks one.
fn mv_without_model() -> (r: ProtoDuckError)
    ensures
        r@ is ConversionError,
{
    ProtoDuckError::ConversionError(string_from_chars(str_to_chars("no model").as_slice()))
}

/// The index, in the registry's model, of the message type named
/// `message_type` (leading dots ignored).
pub open spec fn type_index_of(state: DescriptorPoolState, message_type: Seq<char>) -> int {
    find_message_from(state.schema().messages@, trim_leading_dots(message_type), 0)->Some_0
}

/// What [`decode_to_json`] may give for a message type: `MessageTypeNotFound`
/// exactly for an unregistered type, otherwise `DecodeError`,
/// `ConversionError`, or the JSON text of a model message of that type.
pub open spec fn json_result(
    state: DescriptorPoolState,
    message_type: Seq<char>,
    r: Result<String, ProtoDuckError>,
) -> bool {
    &&& !state.message_names().contains(trim_leading_dots(message_type)) <==> (r matches Err(e)
        && e@ == ProtoDuckErrorView::MessageTypeNotFound(trim_leading_dots(message_type)))
    &&& r matches Ok(t) ==> exists|mv: MessageView|
        value_ok(state.schema(), ValueView::Message(mv)) && mv.type_index == type_index_of(
            state,
            message_type,
        ) && t@ == json_text(#[trigger] message_json(state.schema(), mv))
    &&& r matches Err(e) ==> (e@ is MessageTypeNotFound || e@ is DecodeError
        || e@ is ConversionError)
}

/// What [`decode_field`] may give for a message type and path:
/// `MessageTypeNotFound` exactly for an unregistered type, otherwise
/// `DecodeError`, `ConversionError`, or the outcome of reading the path in a
/// model message of that type.
pub open spec fn field_result(
    state: DescriptorPoolState,
    message_type: Seq<char>,
    path: Seq<char>,
    r: Result<String, ProtoDuckError>,
) -> bool {
    &&& !state.message_names().contains(trim_leading_dots(message_type)) <==> (r matches Err(e)
        && e@ == ProtoDuckErrorView::MessageTypeNotFound(trim_leading_dots(message_type)))
    &&& state.message_names().contains(trim_leading_dots(message_type)) ==> (r matches Err(e)
        && (e@ is DecodeError || e@ is ConversionError)) || exists|mv: MessageView|
        value_ok(state.schema(), ValueView::Message(mv)) && mv.type_index == type_index_of(
            state,
            message_type,
        ) && text_outcome(r, #[trigger] extract_spec(state.schema(), mv, path))
}

/// The JSON text of the message of type `message_type` that `data` encodes,
/// rendered over the registry's model (see [`model_to_json`]). An
/// unregistered type gives `MessageTypeNotFound`, bytes that do not decode
/// give `DecodeError`, a decoded message that does not fit the model gives
/// `ConversionError`.
pub fn decode_to_json(state: &DescriptorPoolState, data: &[u8], message_type: &str) -> (r: Result<
    String,
    ProtoDuckError,
>)
    ensures
        json_result(*state, message_type@, r),
{
    let mv = match decode_to_model(state, data, message_type) {
        Ok(m) => m,
        Err(e) => {
            return Err(e);
        },
    };
    let schema = match state.model() {
        Some(s) => s,
        None => {
            proof {
                assert(false);
            }
            return Err(mv_without_model());
        },
    };
    match model_to_json(schema, &mv) {
        Ok(j) => {
            let t = json_to_string(&j);
            proof {
                assert(t@ == json_text(message_json(state.schema(), mv@)));
            }
            Ok(t)
        },
        Err(e) => Err(e),
    }
}

/// The text of the value that `path` names in the message of type
/// `message_type` that `data` encodes, read over the registry's model (see
/// [`extract_from_model`]). An unregistered type gives
/// `MessageTypeNotFound`, bytes that do not decode give `DecodeError`, a
/// decoded message that does not fit the model gives `ConversionError`.
pub fn decode_field(
    state: &DescriptorPoolState,
    data: &[u8],
    message_type: &str,
    path: &str,
) -> (r: Result<String, ProtoDuckError>)
    ensures
        field_result(*state, message_type@, path@, r),
{
    let mv = match decode_to_model(state, data, message_type) {
        Ok(m) => m,
        Err(e) => {
            return Err(e);
        },
    };
    let schema = match state.model() {
        Some(s) => s,
        None => {
            proof {
                assert(false);
            }
            return Err(mv_without_model());
        },
    };
    let r = extract_from_model(schema, &mv, path);
    proof {
        assert(text_outcome(r, extract_spec(state.schema(), mv@, path@)));
        crate::type_mapping::law_extract_errors_are_path_errors(state.schema(), mv@, path@);
    }
    r
}

/// `proto_to_json` on a batch of rows, each a message's bytes and its type:
/// a row with either missing gives `None`, the others their JSON text (see
/// [`decode_to_json`]); the first row that fails ends the batch with its
/// error.
pub fn rows_to_json(state: &DescriptorPoolState, rows: &Vec<(Option<&[u8]>, Option<&str>)>) -> (r:
    Result<Vec<Option<String>>, ProtoDuckError>)
    ensures
        r matches Ok(out) ==> out@.len() == rows@.len() && forall|i: int|
            0 <= i < rows@.len() ==> match #[trigger] rows@[i] {
                (Some(_), Some(t)) => out@[i] matches Some(x) && json_result(*state, t@, Ok(x)),
                _ => out@[i] is None,
            },
        r matches Err(e) ==> exists|i: int|
            0 <= i < rows@.len() && match #[trigger] rows@[i] {
                (Some(_), Some(t)) => json_result(*state, t@, Err(e)),
                _ => false,
            },
{
    let mut out: Vec<Option<String>> = Vec::new();
    let mut i: usize = 0;
    while i < rows.len()
        invariant
            i <= rows@.len(),
            out@.len() == i,
            forall|k: int|
                0 <= k < i ==> match #[trigger] rows@[k] {
                    (Some(_), Some(t)) => out@[k] matches Some(x) && json_result(*state, t@, Ok(x)),
                    _ => out@[k] is None,
                },
        decreases rows@.len() - i,
    {
        match rows[i] {
            (Some(data), Some(message_type)) => match decode_to_json(state, data, message_type) {
                Ok(t) => out.push(Some(t)),
                Err(e) => {
                    proof {
                        assert(rows@[i as int].0 is Some);
                    }
                    return Err(e);
                },
            },
            _ => out.push(None),
        }
        i = i + 1;
    }
    Ok(out)
}

/// `proto_get` on a batch of rows, each a message's bytes, its type and a
/// field path: a row with any of them missing gives `None`, the others the
/// text of the field (see [`decode_field`]); the first row that fails ends
/// the batch with its error.
pub fn rows_to_field(
    state: &DescriptorPoolState,
    rows: &Vec<(Option<&[u8]>, Option<&str>, Option<&str>)>,
) -> (r: Result<Vec<Option<String>>, ProtoDuckError>)
    ensures
        r matches Ok(out) ==> out@.len() == rows@.len() && forall|i: int|
            0 <= i < rows@.len() ==> match #[trigger] rows@[i] {
                (Some(_), Some(t), Some(p)) => out@[i] matches Some(x) && field_result(
                    *state,
                    t@,
                    p@,
                    Ok(x),
                ),
                _ => out@[i] is None,
            },
        r matches Err(e) ==> exists|i: int|
            0 <= i < rows@.len() && match #[trigger] rows@[i] {
                (Some(_), Some(t), Some(p)) => field_result(*state, t@, p@, Err(e)),
                _ => false,
            },
{
    let mut out: Vec<Option<String>> = Vec::new();
    let mut i: usize = 0;
    while i < rows.len()
        invariant
            i <= rows@.len(),
            out@.len() == i,
            forall|k: int|
                0 <= k < i ==> match #[trigger] rows@[k] {
                    (Some(_), Some(t), Some(p)) => out@[k] matches Some(x) && field_result(
                        *state,
                        t@,
                        p@,
                        Ok(x),
                    ),
                    _ => out@[k] is None,
                },
        decreases rows@.len() - i,
    {
        match rows[i] {
            (Some(data), Some(message_type), Some(path)) => match decode_field(
                state,
                data,
                message_type,
                path,
            ) {
                Ok(t) => out.push(Some(t)),
                Err(e) => {
                    proof {
                        assert(rows@[i as int].0 is Some);
                    }
                    return Err(e);
                },
            },
            _ => out.push(None),
        }
        i = i + 1;
    }
    Ok(out)
}

} // verus!
