//! The registry of protobuf schemas: `.proto` texts and compiled descriptor
//! sets are added to a descriptor pool, message types are looked up in it,
//! and bytes are decoded against them.

use vstd::prelude::*;

use prost::Message;
use prost_reflect::{DescriptorPool, DynamicMessage, MessageDescriptor};
use prost_types::FileDescriptorSet;

use crate::error::{ProtoDuckError, ProtoDuckErrorView};
use crate::reflect::{build_schema, convert_message_of_type, lists_names};
use crate::value::{value_ok, MessageValue, ValueView};
use crate::schema::{
    describe_in_schema, describe_text, find_message_from, trim_dots, trim_leading_dots, Schema,
};
use crate::text::{nat_decimal, push_chars, push_str, string_from_chars, u64_decimal};

verus! {

/// The full names of the message types of a pool, nested ones included, in
/// the order in which the pool lists them.
pub uninterp spec fn pool_message_names(pool: DescriptorPool) -> Seq<Seq<char>>;

/// The names of the files of a pool.
pub uninterp spec fn pool_file_names(pool: DescriptorPool) -> Set<Seq<char>>;

/// The files of a descriptor set, in order: each by its name, with the full
/// names of the message types its descriptor defines (nested ones included).
pub uninterp spec fn set_files(fds: FileDescriptorSet) -> Seq<(Seq<char>, Seq<Seq<char>>)>;

/// What compiling a `.proto` text under the given file name gives, with the
/// well-known `google/protobuf` files available for import: `None` when it
/// does not compile, otherwise the files of the resulting descriptor set (as
/// [`set_files`] lists them).
pub uninterp spec fn compiled_files(file_name: Seq<char>, source: Seq<char>) -> Option<
    Seq<(Seq<char>, Seq<Seq<char>>)>,
>;

/// What decoding bytes as a `FileDescriptorSet` gives: `None` when they do
/// not decode, otherwise the files of the set (as [`set_files`] lists them).
pub uninterp spec fn decoded_set_files(bytes: Seq<u8>) -> Option<
    Seq<(Seq<char>, Seq<Seq<char>>)>,
>;

/// The well-known message types that the process-wide pool is built with
/// (a selection: the wrappers and the types of `any`, `duration`, `empty`,
/// `field_mask`, `struct` and `timestamp`).
pub open spec fn well_known_message_names() -> Seq<Seq<char>> {
    seq![
        "google.protobuf.Any"@,
        "google.protobuf.Duration"@,
        "google.protobuf.Empty"@,
        "google.protobuf.FieldMask"@,
        "google.protobuf.Struct"@,
        "google.protobuf.Value"@,
        "google.protobuf.ListValue"@,
        "google.protobuf.Timestamp"@,
        "google.protobuf.BoolValue"@,
        "google.protobuf.BytesValue"@,
        "google.protobuf.DoubleValue"@,
        "google.protobuf.FloatValue"@,
        "google.protobuf.Int32Value"@,
        "google.protobuf.Int64Value"@,
        "google.protobuf.StringValue"@,
        "google.protobuf.UInt32Value"@,
        "google.protobuf.UInt64Value"@,
    ]
}

/// After an addition from a set whose files are `files`, each file whose
/// name was not yet a file of the pool (`before_files`) has all its message
/// types registered (`after_names`).
pub open spec fn fresh_files_registered(
    files: Seq<(Seq<char>, Seq<Seq<char>>)>,
    before_files: Set<Seq<char>>,
    after_names: Seq<Seq<char>>,
) -> bool {
    forall|i: int, k: int|
        0 <= i < files.len() && !before_files.contains(files[i].0) && 0 <= k < files[i].1.len()
            ==> after_names.contains(#[trigger] files[i].1[k])
}

/// `protox`: compiles the `.proto` text `source` as the file `file_name`,
/// resolving imports of that file by its own text and of the well-known
/// `google/protobuf` files, and returns the descriptor set of the file and
/// its imports. Claimed: it succeeds exactly when `compiled_files` of the
/// name and text is some list of files, and that list is the set's.
#[verifier::external_body]
fn compile_proto_source(file_name: &str, source: &str) -> (r: Result<
    FileDescriptorSet,
    protox::Error,
>)
    ensures
        r is Ok <==> compiled_files(file_name@, source@) is Some,
        r matches Ok(fds) ==> compiled_files(file_name@, source@) == Some(set_files(fds)),
{
    let file = protox::file::File::from_source(file_name, source)?;
    let set = FileDescriptorSet { file: vec![file.file_descriptor_proto().clone()] };
    let mut resolver = protox::file::ChainFileResolver::new();
    resolver.add(protox::file::DescriptorSetFileResolver::new(set));
    resolver.add(protox::file::GoogleFileResolver::new());
    let mut compiler = protox::Compiler::with_file_resolver(resolver);
    compiler.include_imports(true);
    compiler.open_file(file_name)?;
    Ok(compiler.file_descriptor_set())
}

/// The text of a `protox` error (its `Display`). Nothing is stated of it.
#[verifier::external_body]
fn protox_error_text(e: &protox::Error) -> (r: String) {
    e.to_string()
}

/// `prost::Message::decode` for `FileDescriptorSet`. Claimed: it succeeds
/// exactly when `decoded_set_files` of the bytes is some list of files, and
/// that list is the set's.
#[verifier::external_body]
fn decode_descriptor_set(data: &[u8]) -> (r: Result<FileDescriptorSet, prost::DecodeError>)
    ensures
        r is Ok <==> decoded_set_files(data@) is Some,
        r matches Ok(fds) ==> decoded_set_files(data@) == Some(set_files(fds)),
{
    FileDescriptorSet::decode(data)
}

/// `DescriptorPool::clone`: the copy lists the same message types and files.
#[verifier::external_body]
fn clone_pool(pool: &DescriptorPool) -> (r: DescriptorPool)
    ensures
        pool_message_names(r) == pool_message_names(*pool),
        pool_file_names(r) == pool_file_names(*pool),
{
    pool.clone()
}

/// `DescriptorPool::add_file_descriptor_set`. Claimed, as its source shows
/// (files whose name the pool already has are skipped, the others are built
/// and their types appended, and a refused set is rolled back): on success
/// the message types listed before are listed first, in the same order, the
/// pool has every file of the set, and every message type of a file it did
/// not have before is registered; on failure the pool lists the same types
/// and files as before. Which sets succeed is not stated.
#[verifier::external_body]
fn pool_add_file_descriptor_set(pool: &mut DescriptorPool, fds: FileDescriptorSet) -> (r: Result<
    (),
    prost_reflect::DescriptorError,
>)
    ensures
        r is Ok ==> pool_message_names(*old(pool)).is_prefix_of(pool_message_names(*final(pool))),
        r is Ok ==> pool_file_names(*old(pool)).subset_of(pool_file_names(*final(pool))),
        r is Ok ==> forall|i: int|
            0 <= i < set_files(fds).len() ==> pool_file_names(*final(pool)).contains(
                #[trigger] set_files(fds)[i].0,
            ),
        r is Ok ==> fresh_files_registered(
            set_files(fds),
            pool_file_names(*old(pool)),
            pool_message_names(*final(pool)),
        ),
        r is Err ==> pool_message_names(*final(pool)) == pool_message_names(*old(pool)),
        r is Err ==> pool_file_names(*final(pool)) == pool_file_names(*old(pool)),
{
    pool.add_file_descriptor_set(fds)
}

/// `DescriptorPool::all_messages`, each mapped to its `full_name`: the full
/// names of the pool's message types, in the pool's order.
#[verifier::external_body]
pub(crate) fn pool_all_message_names(pool: &DescriptorPool) -> (r: Vec<String>)
    ensures
        r@.map_values(|s: String| s@) == pool_message_names(*pool),
{
    pool.all_messages().map(|m| m.full_name().to_string()).collect()
}

/// `s` with one leading dot removed, if it has one.
pub open spec fn without_leading_dot(s: Seq<char>) -> Seq<char> {
    if s.len() > 0 && s[0] == '.' {
        s.drop_first()
    } else {
        s
    }
}

/// `DescriptorPool::get_message_by_name`: it strips one leading `.` from the
/// name and looks the rest up, so it gives a descriptor exactly when the
/// pool has a message type of that full name.
#[verifier::external_body]
pub(crate) fn pool_get_message(pool: &DescriptorPool, name: &str) -> (r: Option<MessageDescriptor>)
    ensures
        r is Some <==> pool_message_names(*pool).contains(without_leading_dot(name@)),
{
    pool.get_message_by_name(name)
}

/// `DescriptorPool::global`: a copy of the process-wide pool, which is built
/// with the well-known types and which other code can only add to. Claimed:
/// it has the well-known message types listed in
/// [`well_known_message_names`]. What else it holds is not stated.
#[verifier::external_body]
fn global_pool() -> (r: DescriptorPool)
    ensures
        forall|i: int|
            0 <= i < well_known_message_names().len() ==> pool_message_names(r).contains(
                #[trigger] well_known_message_names()[i],
            ),
{
    DescriptorPool::global()
}

/// `DynamicMessage::decode`: decodes bytes as a message of the given type.
/// Whether it succeeds depends on the type, which this library holds
/// opaquely, so nothing is stated of the result.
#[verifier::external_body]
fn decode_dynamic(desc: MessageDescriptor, data: &[u8]) -> (r: Result<
    DynamicMessage,
    prost::DecodeError,
>) {
    DynamicMessage::decode(desc, data)
}

/// The registered schemas: a descriptor pool, its message and enum types in
/// the library's model, and the number of inline `.proto` texts added so far
/// (which names the next one).
pub struct DescriptorPoolState {
    pool: DescriptorPool,
    schema: Option<Schema>,
    file_counter: usize,
}

/// The file name under which the inline text numbered `n` is compiled.
pub open spec fn inline_file_name(n: nat) -> Seq<char> {
    "inline_"@ + nat_decimal(n) + ".proto"@
}

impl DescriptorPoolState {
    /// The full names of the registered message types.
    pub closed spec fn message_names(&self) -> Seq<Seq<char>> {
        pool_message_names(self.pool)
    }

    /// The number that the next inline `.proto` text is given.
    pub closed spec fn next_file_number(&self) -> usize {
        self.file_counter
    }

    /// The names of the files of the registered schemas.
    pub closed spec fn file_names(&self) -> Set<Seq<char>> {
        pool_file_names(self.pool)
    }

    /// Whether the registered types could be read into the library's model
    /// (see [`build_schema`]); descriptions and decoded renderings need it.
    pub closed spec fn has_model(&self) -> bool {
        self.schema is Some
    }

    /// The registered types in the library's model: read from the pool's
    /// descriptors each time the pool grows, its message types listed in the
    /// pool's order (meaningful where [`Self::has_model`] holds).
    pub closed spec fn schema(&self) -> Schema {
        self.schema->Some_0
    }

    /// The model, where there is one, is well formed and lists the pool's
    /// message types.
    #[verifier::type_invariant]
    closed spec fn model_matches_pool(&self) -> bool {
        self.schema matches Some(s) ==> s.wf() && lists_names(s, pool_message_names(self.pool))
    }

    /// A registry that starts from the process-wide pool: the well-known
    /// types are registered.
    pub fn new() -> (r: Self)
        ensures
            r.next_file_number() == 0,
            forall|i: int|
                0 <= i < well_known_message_names().len() ==> r.message_names().contains(
                    #[trigger] well_known_message_names()[i],
                ),
    {
        let pool = global_pool();
        let schema = match build_schema(&pool) {
            Ok(s) => Some(s),
            Err(_) => None,
        };
        DescriptorPoolState { pool, schema, file_counter: 0 }
    }
}

impl Default for DescriptorPoolState {
    /// A registry that starts from the process-wide pool (the well-known types).
    fn default() -> (r: Self)
        ensures
            r.next_file_number() == 0,
    {
        DescriptorPoolState::new()
    }
}

/// After a successful addition from a set whose files are `files`: the
/// earlier types come first, the returned names are those after them, the
/// pool has every file of the set, and every type of a file it did not have
/// before is registered.
pub open spec fn added_as(
    before: DescriptorPoolState,
    after: DescriptorPoolState,
    files: Seq<(Seq<char>, Seq<Seq<char>>)>,
    names: Seq<Seq<char>>,
) -> bool {
    &&& before.message_names().is_prefix_of(after.message_names())
    &&& names == after.message_names().skip(before.message_names().len() as int)
    &&& before.file_names().subset_of(after.file_names())
    &&& forall|i: int| 0 <= i < files.len() ==> after.file_names().contains(#[trigger] files[i].0)
    &&& fresh_files_registered(files, before.file_names(), after.message_names())
}

/// A refused addition changes no registered type, file or model.
pub open spec fn unchanged(before: DescriptorPoolState, after: DescriptorPoolState) -> bool {
    &&& after.message_names() == before.message_names()
    &&& after.file_names() == before.file_names()
    &&& after.has_model() == before.has_model()
    &&& after.schema() == before.schema()
}

/// Adds a compiled descriptor set: on success the registered types are the
/// pool's after the addition (the earlier ones first), and the names of the
/// types this call added are returned, in the pool's order; the model is
/// read again from the grown pool (where it cannot be, there is no model). A
/// set the pool refuses gives `DescriptorError` and changes nothing.
pub fn add_file_descriptor_set(state: &mut DescriptorPoolState, fds: FileDescriptorSet) -> (r:
    Result<Vec<String>, ProtoDuckError>)
    ensures
        final(state).next_file_number() == old(state).next_file_number(),
        r matches Ok(names) ==> added_as(
            *old(state),
            *final(state),
            set_files(fds),
            names@.map_values(|s: String| s@),
        ),
        r matches Err(e) ==> e@ == ProtoDuckErrorView::DescriptorError && unchanged(
            *old(state),
            *final(state),
        ),
{
    let before = pool_all_message_names(&state.pool);
    let mut new_pool = clone_pool(&state.pool);
    match pool_add_file_descriptor_set(&mut new_pool, fds) {
        Ok(()) => {
            let all = pool_all_message_names(&new_pool);
            let ghost old_names = pool_message_names(state.pool);
            let ghost new_names = pool_message_names(new_pool);
            proof {
                assert(before@.len() == old_names.len());
                assert(all@.len() == new_names.len());
            }
            let mut added: Vec<String> = Vec::new();
            let mut i: usize = before.len();
            while i < all.len()
                invariant
                    all@.map_values(|s: String| s@) == new_names,
                    old_names.len() <= i <= all@.len(),
                    added@.map_values(|s: String| s@) == new_names.subrange(
                        old_names.len() as int,
                        i as int,
                    ),
                decreases all@.len() - i,
            {
                proof {
                    assert(all@.map_values(|s: String| s@)[i as int] == all@[i as int]@);
                }
                let ghost prev = added@;
                let item = all[i].clone();
                added.push(item);
                proof {
                    assert(added@ == prev.push(item));
                    assert(added@.map_values(|s: String| s@) =~= prev.map_values(|s: String| s@).push(
                        item@,
                    ));
                    assert(added@.map_values(|s: String| s@) =~= new_names.subrange(
                        old_names.len() as int,
                        i + 1,
                    ));
                }
                i = i + 1;
            }
            proof {
                assert(new_names.subrange(old_names.len() as int, all@.len() as int)
                    =~= new_names.skip(old_names.len() as int));
            }
            let schema = match build_schema(&new_pool) {
                Ok(sc) => Some(sc),
                Err(_) => None,
            };
            let counter = state.file_counter;
            *state = DescriptorPoolState { pool: new_pool, schema, file_counter: counter };
            Ok(added)
        },
        Err(e) => Err(ProtoDuckError::DescriptorError(e)),
    }
}

/// The name under which inline text number `n` is compiled.
fn inline_name(n: usize) -> (r: String)
    ensures
        r@ == inline_file_name(n as nat),
{
    let mut out: Vec<char> = Vec::new();
    push_str(&mut out, "inline_");
    push_chars(&mut out, u64_decimal(n as u64).as_slice());
    push_str(&mut out, ".proto");
    string_from_chars(out.as_slice())
}

/// Compiles a `.proto` text (as `inline_N.proto`, `N` counting the texts
/// added so far) and adds its types. A text that does not compile is
/// refused with `SchemaParseError` and changes no registered type.
pub fn add_schema_from_proto(state: &mut DescriptorPoolState, proto_content: &str) -> (r: Result<
    Vec<String>,
    ProtoDuckError,
>)
    ensures
        final(state).next_file_number() == (if old(state).next_file_number() == usize::MAX {
            0
        } else {
            old(state).next_file_number() + 1
        }),
        compiled_files(inline_file_name(old(state).next_file_number() as nat), proto_content@)
            is None <==> (r matches Err(e) && e@ is SchemaParseError),
        r is Err ==> unchanged(*old(state), *final(state)),
        r matches Ok(names) ==> compiled_files(
            inline_file_name(old(state).next_file_number() as nat),
            proto_content@,
        ) matches Some(files) && added_as(
            *old(state),
            *final(state),
            files,
            names@.map_values(|s: String| s@),
        ),
        r matches Err(e) ==> (e@ is SchemaParseError || e@ == ProtoDuckErrorView::DescriptorError),
{
    proof {
        use_type_invariant(&*state);
    }
    let n = state.file_counter;
    state.file_counter = if n == usize::MAX { 0 } else { n + 1 };
    let name = inline_name(n);
    match compile_proto_source(name.as_str(), proto_content) {
        Ok(fds) => add_file_descriptor_set(state, fds),
        Err(e) => Err(ProtoDuckError::SchemaParseError(protox_error_text(&e))),
    }
}

/// Adds the types of a compiled `FileDescriptorSet` (as `protoc
/// --descriptor_set_out` writes it): the same as adding the decoded set.
/// Bytes that do not decode are refused with `DecodeError`; a refused set
/// changes nothing.
pub fn add_schema_from_binary(state: &mut DescriptorPoolState, data: &[u8]) -> (r: Result<
    Vec<String>,
    ProtoDuckError,
>)
    ensures
        final(state).next_file_number() == old(state).next_file_number(),
        decoded_set_files(data@) is None <==> (r matches Err(e) && e@ is DecodeError),
        r matches Err(e) ==> (e@ is DecodeError || e@ == ProtoDuckErrorView::DescriptorError),
        r is Err ==> unchanged(*old(state), *final(state)),
        r matches Ok(names) ==> decoded_set_files(data@) matches Some(files) && added_as(
            *old(state),
            *final(state),
            files,
            names@.map_values(|s: String| s@),
        ),
{
    match decode_descriptor_set(data) {
        Ok(fds) => add_file_descriptor_set(state, fds),
        Err(e) => Err(ProtoDuckError::DecodeError(e)),
    }
}

/// The descriptor of the message type named `message_type` (leading dots
/// ignored): found exactly when that name is registered.
pub fn get_message_descriptor(state: &DescriptorPoolState, message_type: &str) -> (r: Result<
    MessageDescriptor,
    ProtoDuckError,
>)
    ensures
        r is Ok <==> state.message_names().contains(trim_leading_dots(message_type@)),
        r matches Err(e) ==> e@ == ProtoDuckErrorView::MessageTypeNotFound(
            trim_leading_dots(message_type@),
        ),
{
    let name = string_from_chars(trim_dots(message_type).as_slice());
    proof {
        crate::schema::lemma_trimmed_has_no_leading_dot(message_type@);
    }
    match pool_get_message(&state.pool, name.as_str()) {
        Some(d) => Ok(d),
        None => Err(ProtoDuckError::MessageTypeNotFound(name)),
    }
}

/// Decodes bytes as a message of the type named `message_type`. An
/// unregistered name gives `MessageTypeNotFound`; bytes that do not decode
/// give `DecodeError`.
pub fn decode_message(state: &DescriptorPoolState, data: &[u8], message_type: &str) -> (r: Result<
    DynamicMessage,
    ProtoDuckError,
>)
    ensures
        !state.message_names().contains(trim_leading_dots(message_type@)) <==> (r matches Err(e)
            && e@ == ProtoDuckErrorView::MessageTypeNotFound(trim_leading_dots(message_type@))),
        r matches Err(e) ==> (e@ == ProtoDuckErrorView::MessageTypeNotFound(
            trim_leading_dots(message_type@),
        ) || e@ is DecodeError),
{
    let descriptor = get_message_descriptor(state, message_type)?;
    match decode_dynamic(descriptor, data) {
        Ok(m) => Ok(m),
        Err(e) => Err(ProtoDuckError::DecodeError(e)),
    }
}

/// `find_message_from` finds a name exactly when the schema lists it.
proof fn lemma_find_listed(s: Schema, names: Seq<Seq<char>>, name: Seq<char>, i: int)
    requires
        lists_names(s, names),
        0 <= i,
    ensures
        find_message_from(s.messages@, name, i) is Some <==> exists|k: int|
            i <= k < names.len() && #[trigger] names[k] == name,
    decreases s.messages@.len() - i,
{
    if i < s.messages@.len() {
        lemma_find_listed(s, names, name, i + 1);
        if names[i] == name {
            assert(s.messages@[i].full_name@ == names[i]);
        } else {
            assert(s.messages@[i].full_name@ == names[i]);
            assert forall|k: int| i <= k < names.len() && #[trigger] names[k] == name implies i + 1 <= k by {
            }
        }
    }
}

impl DescriptorPoolState {
    /// The registry's model of its types, where there is one.
    pub fn model(&self) -> (r: Option<&Schema>)
        ensures
            r is Some <==> self.has_model(),
            r matches Some(s) ==> *s == self.schema() && s.wf() && lists_names(
                *s,
                self.message_names(),
            ),
    {
        proof {
            use_type_invariant(self);
        }
        match &self.schema {
            Some(s) => Some(s),
            None => None,
        }
    }
}

/// Decodes bytes as a message of the type named `message_type` (see
/// [`decode_message`]) and reads it into the registry's model, as a message
/// of that type. An unregistered name gives `MessageTypeNotFound`, bytes
/// that do not decode give `DecodeError`; a registry without a model, or a
/// message that does not fit the model, gives `ConversionError`.
pub fn decode_to_model(state: &DescriptorPoolState, data: &[u8], message_type: &str) -> (r: Result<
    MessageValue,
    ProtoDuckError,
>)
    ensures
        state.has_model() ==> state.schema().wf() && lists_names(
            state.schema(),
            state.message_names(),
        ),
        !state.message_names().contains(trim_leading_dots(message_type@)) <==> (r matches Err(e)
            && e@ == ProtoDuckErrorView::MessageTypeNotFound(trim_leading_dots(message_type@))),
        r is Ok ==> state.has_model(),
        r matches Ok(mv) ==> value_ok(state.schema(), ValueView::Message(mv@)) && mv@.type_index
            == find_message_from(state.schema().messages@, trim_leading_dots(message_type@), 0)->Some_0,
        r matches Err(e) ==> (e@ == ProtoDuckErrorView::MessageTypeNotFound(
            trim_leading_dots(message_type@),
        ) || e@ is DecodeError || e@ is ConversionError),
{
    let model = state.model();
    let message = match decode_message(state, data, message_type) {
        Ok(m) => m,
        Err(e) => {
            return Err(e);
        },
    };
    let schema = match model {
        Some(s) => s,
        None => {
            return Err(no_model_error());
        },
    };
    let (found, _name) = crate::schema::find_message(schema, message_type);
    proof {
        lemma_find_listed(*schema, state.message_names(), trim_leading_dots(message_type@), 0);
        crate::schema::lemma_find_message_bounds(schema.messages@, trim_leading_dots(message_type@), 0);
    }
    let t = match found {
        Some(t) => t,
        None => {
            proof {
                assert(false);
            }
            return Err(conversion_error_text());
        },
    };
    proof {
        let k = find_message_from(schema.messages@, trim_leading_dots(message_type@), 0)->Some_0;
        assert(schema.messages@.len() == schema.messages.len());
        assert(0 <= k < schema.messages@.len());
        assert(found == Some(k as usize));
        assert(t as int == k);
    }
    let r = convert_message_of_type(schema, &message, t);
    r
}

/// The error for a registry whose types could not be read into the model.
fn no_model_error() -> (r: ProtoDuckError)
    ensures
        r@ == ProtoDuckErrorView::ConversionError(
            "the registered types could not be read into the model"@,
        ),
{
    ProtoDuckError::ConversionError(string_from_chars(
        crate::text::str_to_chars("the registered types could not be read into the model").as_slice(),
    ))
}

/// The error for a registered type that the model does not hold.
fn conversion_error_text() -> (r: ProtoDuckError)
    ensures
        r@ is ConversionError,
{
    ProtoDuckError::ConversionError(string_from_chars(
        crate::text::str_to_chars("a registered type is not in the model").as_slice(),
    ))
}

/// A description of the message type named `message_type` (leading dots
/// ignored), read from the registry's model: a `message Name {` line, a
/// line per field, a block per `oneof` of two or more fields, and `}` (see
/// [`describe_text`]). An unregistered name gives `MessageTypeNotFound`;
/// a registered one is described whenever the registry has its model, and
/// gives `ConversionError` otherwise.
pub fn describe_message_type(state: &DescriptorPoolState, message_type: &str) -> (r: Result<
    String,
    ProtoDuckError,
>)
    ensures
        state.has_model() ==> state.schema().wf() && lists_names(
            state.schema(),
            state.message_names(),
        ),
        !state.message_names().contains(trim_leading_dots(message_type@)) ==> (r matches Err(e)
            && e@ == ProtoDuckErrorView::MessageTypeNotFound(trim_leading_dots(message_type@))),
        state.message_names().contains(trim_leading_dots(message_type@)) && state.has_model() ==> (
        r matches Ok(t) && t@ == describe_text(
            state.schema(),
            find_message_from(state.schema().messages@, trim_leading_dots(message_type@), 0)->Some_0,
        )),
        state.message_names().contains(trim_leading_dots(message_type@)) && !state.has_model() ==> (
        r matches Err(e) && e@ == ProtoDuckErrorView::ConversionError(
            "the registered types could not be read into the model"@,
        )),
{
    proof {
        use_type_invariant(state);
    }
    if let Err(e) = get_message_descriptor(state, message_type) {
        return Err(e);
    }
    match state.model() {
        Some(schema) => {
            proof {
                lemma_find_listed(*schema, state.message_names(), trim_leading_dots(message_type@), 0);
            }
            describe_in_schema(schema, message_type)
        },
        None => Err(no_model_error()),
    }
}

/// A registered message type stays registered: where a successful addition
/// keeps the earlier names as a prefix of the new ones (as
/// [`add_schema_from_proto`] and [`add_schema_from_binary`] ensure), every
/// name found before is found after.
pub proof fn law_registered_types_stay(
    before: Seq<Seq<char>>,
    after: Seq<Seq<char>>,
    name: Seq<char>,
)
    requires
        before.is_prefix_of(after),
        before.contains(name),
    ensures
        after.contains(name),
{
    let k = choose|k: int| 0 <= k < before.len() && before[k] == name;
    assert(after[k] == name);
}

/// What a successful load returns is registered afterwards: where the names
/// before a load are a prefix of the names after it and the load returns
/// the names past that prefix (as [`add_schema_from_proto`] and
/// [`add_schema_from_binary`] ensure), every returned name that does not
/// start with a dot is registered, so that [`get_message_descriptor`],
/// [`describe_message_type`], [`decode_message`] and the functions built on
/// them find it by that name.
pub proof fn law_loaded_types_are_registered(
    before: Seq<Seq<char>>,
    after: Seq<Seq<char>>,
    added: Seq<Seq<char>>,
    name: Seq<char>,
)
    requires
        before.is_prefix_of(after),
        added == after.skip(before.len() as int),
        added.contains(name),
        !(name.len() > 0 && name[0] == '.'),
    ensures
        after.contains(trim_leading_dots(name)),
{
    let k = choose|k: int| 0 <= k < added.len() && added[k] == name;
    assert(after[before.len() + k] == name);
    assert(trim_leading_dots(name) == name);
}

/// A type added by a load can then be found: after a successful addition
/// (as [`add_schema_from_proto`], [`add_schema_from_binary`] and
/// [`add_file_descriptor_set`] describe it with [`added_as`]), every message
/// type of a file that the registry did not have before, whose name does
/// not start with a dot, is registered under that name, so that
/// [`get_message_descriptor`], [`describe_message_type`] and
/// [`decode_message`] find it.
pub proof fn law_added_file_types_are_found(
    before: DescriptorPoolState,
    after: DescriptorPoolState,
    files: Seq<(Seq<char>, Seq<Seq<char>>)>,
    names: Seq<Seq<char>>,
    i: int,
    k: int,
)
    requires
        added_as(before, after, files, names),
        0 <= i < files.len(),
        !before.file_names().contains(files[i].0),
        0 <= k < files[i].1.len(),
        !(files[i].1[k].len() > 0 && files[i].1[k][0] == '.'),
    ensures
        after.message_names().contains(trim_leading_dots(files[i].1[k])),
{
    assert(after.message_names().contains(files[i].1[k]));
    assert(trim_leading_dots(files[i].1[k]) == files[i].1[k]);
}

} // verus!
