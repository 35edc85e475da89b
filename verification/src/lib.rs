//! Field paths, value rendering and schema description for protobuf
//! messages held in database columns.

pub mod descriptor_pool;
pub mod encoding;
pub mod error;
pub mod external;
pub mod functions;
pub mod path;
pub mod reflect;
pub mod schema;
pub mod text;
pub mod type_mapping;
pub mod value;
