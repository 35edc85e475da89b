use protoduck::error::ProtoDuckError;
use protoduck::schema::{
    Cardinality, EnumSchema, EnumValueSchema, FieldKind, FieldSchema, MessageSchema, Schema,
};
use protoduck::encoding::json_to_string;
use protoduck::type_mapping::{extract_from_model, value_to_json, value_to_string};
use protoduck::value::{MapKey, MessageValue, ProtoValue};

fn field(name: &str, number: u32, kind: FieldKind, cardinality: Cardinality, is_map: bool) -> FieldSchema {
    FieldSchema {
        name: name.to_string(),
        number,
        kind,
        cardinality,
        is_map,
        explicit_default: None,
    }
}

fn message(name: &str, full_name: &str, fields: Vec<FieldSchema>) -> MessageSchema {
    MessageSchema {
        name: name.to_string(),
        full_name: full_name.to_string(),
        fields,
        oneofs: vec![],
    }
}

fn entry(name: &str, full_name: &str, key: FieldKind, value: FieldKind) -> MessageSchema {
    message(
        name,
        full_name,
        vec![
            field("key", 1, key, Cardinality::Optional, false),
            field("value", 2, value, Cardinality::Optional, false),
        ],
    )
}

/// message Maps {
///     map<int64, string> int64_values = 1;
///     map<uint64, string> uint64_values = 2;
///     map<string, string> string_values = 3;
/// }
fn maps_schema() -> Schema {
    Schema {
        messages: vec![
            message(
                "Maps",
                "maptest.Maps",
                vec![
                    field("int64_values", 1, FieldKind::Message(1), Cardinality::Repeated, true),
                    field("uint64_values", 2, FieldKind::Message(2), Cardinality::Repeated, true),
                    field("string_values", 3, FieldKind::Message(3), Cardinality::Repeated, true),
                ],
            ),
            entry("Int64ValuesEntry", "maptest.Maps.Int64ValuesEntry", FieldKind::Int64, FieldKind::String),
            entry("Uint64ValuesEntry", "maptest.Maps.Uint64ValuesEntry", FieldKind::Uint64, FieldKind::String),
            entry("StringValuesEntry", "maptest.Maps.StringValuesEntry", FieldKind::String, FieldKind::String),
        ],
        enums: vec![],
    }
}

fn map_test_message() -> MessageValue {
    MessageValue {
        type_index: 0,
        fields: vec![
            Some(ProtoValue::MapEntries(vec![(MapKey::I64(1), ProtoValue::String("signed".to_string()))])),
            Some(ProtoValue::MapEntries(vec![(MapKey::U64(1), ProtoValue::String("unsigned".to_string()))])),
            Some(ProtoValue::MapEntries(vec![(
                MapKey::String("1".to_string()),
                ProtoValue::String("string".to_string()),
            )])),
        ],
    }
}

#[test]
fn model_map_keys_follow_declared_key_type() {
    let schema = maps_schema();
    let message = map_test_message();

    assert_eq!(
        extract_from_model(&schema, &message, "int64_values[1]").unwrap(),
        "signed"
    );
    assert_eq!(
        extract_from_model(&schema, &message, "uint64_values[1]").unwrap(),
        "unsigned"
    );
    assert_eq!(
        extract_from_model(&schema, &message, "string_values[\"1\"]").unwrap(),
        "string"
    );
}

#[test]
fn model_map_key_of_wrong_type_is_refused() {
    let schema = maps_schema();
    let message = map_test_message();
    let err = extract_from_model(&schema, &message, "uint64_values[-1]").unwrap_err();

    assert!(matches!(err, ProtoDuckError::InvalidFieldPath(_)));
}

#[test]
fn model_value_of_a_map_field_renders_as_an_object() {
    let schema = maps_schema();
    let message = map_test_message();
    let field = &schema.messages[0].fields[0];
    let value = message.fields[0].as_ref().unwrap();
    let json = value_to_json(&schema, value, field).unwrap();
    assert_eq!(json_to_string(&json), r#"{"1":"signed"}"#);
    assert_eq!(value_to_string(&schema, value).unwrap(), r#"{"1":"signed"}"#);
}
