//! The library's error type.

use vstd::prelude::*;

verus! {

/// Why an operation of this library failed.
#[derive(Debug)]
pub enum ProtoDuckError {
    /// A `.proto` text did not compile; the payload is the compiler's message.
    SchemaParseError(String),
    /// No registered message type has this name.
    MessageTypeNotFound(String),
    /// The field (first) is not a field of the message type (second).
    FieldNotFound(String, String),
    /// The index (first) in the path (second) is not below the length (third).
    IndexOutOfBounds(usize, String, usize),
    /// The map key (first) named in the path (second) is not in the map.
    MapKeyNotFound(String, String),
    /// The field path cannot be followed; the payload explains why.
    InvalidFieldPath(String),
    /// The path (payload) indexes a value that is not repeated.
    NotARepeatedField(String),
    /// Bytes did not decode as protobuf.
    DecodeError(prost::DecodeError),
    /// A descriptor set was refused.
    DescriptorError(prost_reflect::DescriptorError),
    /// JSON serialisation failed.
    JsonError(serde_json::Error),
    /// A decoded message could not be read into the library's model of
    /// values; the payload says why.
    ConversionError(String),
}

/// The abstract value of a [`ProtoDuckError`]: its variant and the text it carries.
pub enum ProtoDuckErrorView {
    SchemaParseError(Seq<char>),
    MessageTypeNotFound(Seq<char>),
    FieldNotFound(Seq<char>, Seq<char>),
    IndexOutOfBounds(usize, Seq<char>, usize),
    MapKeyNotFound(Seq<char>, Seq<char>),
    InvalidFieldPath(Seq<char>),
    NotARepeatedField(Seq<char>),
    DecodeError,
    DescriptorError,
    JsonError,
    ConversionError(Seq<char>),
}

impl View for ProtoDuckError {
    type V = ProtoDuckErrorView;

    open spec fn view(&self) -> ProtoDuckErrorView {
        match self {
            ProtoDuckError::SchemaParseError(m) => ProtoDuckErrorView::SchemaParseError(m@),
            ProtoDuckError::MessageTypeNotFound(m) => ProtoDuckErrorView::MessageTypeNotFound(m@),
            ProtoDuckError::FieldNotFound(f, m) => ProtoDuckErrorView::FieldNotFound(f@, m@),
            ProtoDuckError::IndexOutOfBounds(i, p, n) => ProtoDuckErrorView::IndexOutOfBounds(
                *i,
                p@,
                *n,
            ),
            ProtoDuckError::MapKeyNotFound(k, p) => ProtoDuckErrorView::MapKeyNotFound(k@, p@),
            ProtoDuckError::InvalidFieldPath(m) => ProtoDuckErrorView::InvalidFieldPath(m@),
            ProtoDuckError::NotARepeatedField(p) => ProtoDuckErrorView::NotARepeatedField(p@),
            ProtoDuckError::DecodeError(_) => ProtoDuckErrorView::DecodeError,
            ProtoDuckError::DescriptorError(_) => ProtoDuckErrorView::DescriptorError,
            ProtoDuckError::JsonError(_) => ProtoDuckErrorView::JsonError,
            ProtoDuckError::ConversionError(m) => ProtoDuckErrorView::ConversionError(m@),
        }
    }
}

} // verus!
