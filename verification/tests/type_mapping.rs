use std::collections::HashMap;

use prost_reflect::{DynamicMessage, MapKey, Value};
use protoduck::descriptor_pool::{add_schema_from_proto, get_message_descriptor, DescriptorPoolState};
use protoduck::error::ProtoDuckError;
use protoduck::path::{parse_field_path, PathPart};
use protoduck::type_mapping::extract_field_value;

#[test]
fn test_parse_simple_path() {
    let parts = parse_field_path("name").unwrap();
    assert_eq!(parts.len(), 1);
    assert!(matches!(&parts[0], PathPart::Field(s) if s == "name"));
}

#[test]
fn test_parse_nested_path() {
    let parts = parse_field_path("user.address.street").unwrap();
    assert_eq!(parts.len(), 3);
}

#[test]
fn test_parse_array_index() {
    let parts = parse_field_path("items[0]").unwrap();
    assert_eq!(parts.len(), 2);
    assert!(matches!(&parts[1], PathPart::Index(0)));
}

#[test]
fn test_parse_map_key() {
    let parts = parse_field_path("properties['key']").unwrap();
    assert_eq!(parts.len(), 2);
    assert!(matches!(&parts[1], PathPart::MapKey(s) if s == "key"));
}

#[test]
fn test_extract_map_key_uses_declared_key_type() {
    let message = map_test_message();

    assert_eq!(
        extract_field_value(&message, "int64_values[1]").unwrap(),
        "signed"
    );
    assert_eq!(
        extract_field_value(&message, "uint64_values[1]").unwrap(),
        "unsigned"
    );
    assert_eq!(
        extract_field_value(&message, "string_values[\"1\"]").unwrap(),
        "string"
    );
}

#[test]
fn test_extract_map_key_rejects_invalid_declared_type() {
    let message = map_test_message();
    let err = extract_field_value(&message, "uint64_values[-1]").unwrap_err();

    assert!(matches!(err, ProtoDuckError::InvalidFieldPath(_)));
}

fn map_test_message() -> DynamicMessage {
    let proto = r#"
            syntax = "proto3";
            package maptest;

            message Maps {
                map<int64, string> int64_values = 1;
                map<uint64, string> uint64_values = 2;
                map<string, string> string_values = 3;
            }
        "#;

    let mut state = DescriptorPoolState::default();
    add_schema_from_proto(&mut state, proto).unwrap();
    let descriptor = get_message_descriptor(&state, "maptest.Maps").unwrap();
    let mut message = DynamicMessage::new(descriptor);

    message.set_field_by_name(
        "int64_values",
        Value::Map(HashMap::from([(
            MapKey::I64(1),
            Value::String("signed".to_string()),
        )])),
    );
    message.set_field_by_name(
        "uint64_values",
        Value::Map(HashMap::from([(
            MapKey::U64(1),
            Value::String("unsigned".to_string()),
        )])),
    );
    message.set_field_by_name(
        "string_values",
        Value::Map(HashMap::from([(
            MapKey::String("1".to_string()),
            Value::String("string".to_string()),
        )])),
    );

    message
}
