use std::collections::HashMap;

use prost::Message;
use prost_reflect::{DynamicMessage, MapKey, Value};
use prost_types::field_descriptor_proto::{Label, Type};
use prost_types::{DescriptorProto, FieldDescriptorProto, FileDescriptorProto, FileDescriptorSet};
use protoduck::descriptor_pool::{
    add_schema_from_binary, add_schema_from_proto, decode_message, describe_message_type,
    get_message_descriptor, DescriptorPoolState,
};
use protoduck::error::ProtoDuckError;
use protoduck::functions::{decode_field, decode_to_json, loaded_types_report, rows_to_field, rows_to_json};
use protoduck::type_mapping::{extract_field_value, message_to_json};
use protoduck::encoding::json_to_string;

const SHOP_PROTO: &str = r#"
    syntax = "proto3";
    package shop;

    enum Status {
        PENDING = 0;
        SHIPPED = 1;
        DELIVERED = 2;
    }

    message Address {
        string street = 1;
        string city = 2;
    }

    message Order {
        int64 order_id = 1;
        string customer = 2;
        repeated string tags = 3;
        Status status = 4;
        map<string, string> metadata = 5;
        Address address = 6;
        bytes payload = 7;
        double total = 8;
        float weight = 9;
        bool gift = 10;
        map<int32, string> codes = 11;
        map<bool, string> flags = 12;
        map<string, Status> states = 13;
        repeated Address stops = 14;
        uint32 count = 15;
        optional int32 maybe = 16;
        oneof contact {
            string email = 17;
            string phone = 18;
        }
    }
"#;

fn shop_state() -> DescriptorPoolState {
    let mut state = DescriptorPoolState::default();
    add_schema_from_proto(&mut state, SHOP_PROTO).unwrap();
    state
}

fn address(state: &DescriptorPoolState, street: Option<&str>, city: &str) -> Value {
    let mut a = DynamicMessage::new(get_message_descriptor(state, "shop.Address").unwrap());
    if let Some(s) = street {
        a.set_field_by_name("street", Value::String(s.to_string()));
    }
    a.set_field_by_name("city", Value::String(city.to_string()));
    Value::Message(a)
}

fn sample_order(state: &DescriptorPoolState) -> DynamicMessage {
    let mut m = DynamicMessage::new(get_message_descriptor(state, "shop.Order").unwrap());
    m.set_field_by_name("order_id", Value::I64(42));
    m.set_field_by_name("customer", Value::String("Ann \"A\"".to_string()));
    m.set_field_by_name(
        "tags",
        Value::List(vec![Value::String("x".to_string()), Value::String("y".to_string())]),
    );
    m.set_field_by_name("status", Value::EnumNumber(1));
    m.set_field_by_name(
        "metadata",
        Value::Map(HashMap::from([(
            MapKey::String("k".to_string()),
            Value::String("v".to_string()),
        )])),
    );
    m.set_field_by_name("address", address(state, Some("Main"), "Oslo"));
    m.set_field_by_name("payload", Value::Bytes(b"hello".to_vec().into()));
    m.set_field_by_name("total", Value::F64(1.5));
    m.set_field_by_name("weight", Value::F32(0.25));
    m.set_field_by_name("gift", Value::Bool(true));
    m.set_field_by_name(
        "codes",
        Value::Map(HashMap::from([(MapKey::I32(-5), Value::String("neg".to_string()))])),
    );
    m.set_field_by_name(
        "flags",
        Value::Map(HashMap::from([(MapKey::Bool(true), Value::String("yes".to_string()))])),
    );
    m.set_field_by_name(
        "states",
        Value::Map(HashMap::from([(MapKey::String("a".to_string()), Value::EnumNumber(2))])),
    );
    m.set_field_by_name("stops", Value::List(vec![address(state, None, "X")]));
    m.set_field_by_name("count", Value::U32(7));
    m.set_field_by_name("email", Value::String("a@b".to_string()));
    m
}

fn sample_json() -> String {
    [
        r#"{"address":{"city":"Oslo","street":"Main"},"codes":{"-5":"neg"},"count":7,"#,
        r#""customer":"Ann \"A\"","email":"a@b","flags":{"true":"yes"},"gift":true,"#,
        r#""metadata":{"k":"v"},"order_id":42,"payload":"aGVsbG8=","states":{"a":"DELIVERED"},"#,
        r#""status":"SHIPPED","stops":[{"city":"X"}],"tags":["x","y"],"total":1.5,"weight":0.25}"#,
    ]
    .concat()
}

#[test]
fn returned_types_are_the_ones_added() {
    let mut state = DescriptorPoolState::default();
    let types = add_schema_from_proto(&mut state, SHOP_PROTO).unwrap();
    assert_eq!(
        types,
        vec![
            "shop.Address",
            "shop.Order",
            "shop.Order.MetadataEntry",
            "shop.Order.CodesEntry",
            "shop.Order.FlagsEntry",
            "shop.Order.StatesEntry",
        ]
    );
    assert!(!types.iter().any(|t| t == "google.protobuf.Timestamp"));
    assert!(get_message_descriptor(&state, "google.protobuf.Timestamp").is_ok());
}

#[test]
fn schema_added_later_keeps_the_earlier_types() {
    let mut state = shop_state();
    let before = add_schema_from_proto(&mut state, "syntax = \"proto3\"; package other; message Thing { int32 id = 1; }")
        .unwrap();
    assert_eq!(before, vec!["other.Thing"]);
    assert!(get_message_descriptor(&state, "shop.Order").is_ok());
    assert!(get_message_descriptor(&state, "other.Thing").is_ok());
}

#[test]
fn proto_that_does_not_compile_is_refused_and_changes_nothing() {
    let mut state = shop_state();
    let err = add_schema_from_proto(&mut state, "syntax = \"proto3\"; message Broken { int32 = ; }")
        .unwrap_err();
    match err {
        ProtoDuckError::SchemaParseError(m) => assert!(!m.is_empty()),
        other => panic!("expected a schema parse error, got {:?}", other),
    }
    assert!(get_message_descriptor(&state, "shop.Order").is_ok());
    assert!(matches!(
        get_message_descriptor(&state, "Broken"),
        Err(ProtoDuckError::MessageTypeNotFound(_))
    ));
}

#[test]
fn message_type_lookup_ignores_leading_dots() {
    let state = shop_state();
    let d = get_message_descriptor(&state, ".shop.Order").unwrap();
    assert_eq!(d.full_name(), "shop.Order");
    let d = get_message_descriptor(&state, "..shop.Address").unwrap();
    assert_eq!(d.name(), "Address");
}

#[test]
fn unknown_message_type_is_reported_without_its_dots() {
    let state = shop_state();
    match get_message_descriptor(&state, ".shop.Nope") {
        Err(ProtoDuckError::MessageTypeNotFound(name)) => assert_eq!(name, "shop.Nope"),
        other => panic!("expected MessageTypeNotFound, got {:?}", other.map(|d| d.full_name().to_string())),
    }
}

fn binary_set() -> Vec<u8> {
    let mut field = FieldDescriptorProto {
        name: Some("id".to_string()),
        number: Some(1),
        ..Default::default()
    };
    field.set_label(Label::Optional);
    field.set_type(Type::Int32);
    let message = DescriptorProto {
        name: Some("Thing".to_string()),
        field: vec![field],
        ..Default::default()
    };
    let file = FileDescriptorProto {
        name: Some("bin.proto".to_string()),
        package: Some("bin".to_string()),
        message_type: vec![message],
        syntax: Some("proto3".to_string()),
        ..Default::default()
    };
    FileDescriptorSet { file: vec![file] }.encode_to_vec()
}

#[test]
fn compiled_descriptor_set_is_added() {
    let mut state = DescriptorPoolState::default();
    let types = add_schema_from_binary(&mut state, &binary_set()).unwrap();
    assert!(types.iter().any(|t| t == "bin.Thing"));
    assert_eq!(
        describe_message_type(&state, "bin.Thing").unwrap(),
        "message Thing {\n  optional int32 id = 1;\n}"
    );
}

#[test]
fn bytes_that_are_no_descriptor_set_give_a_decode_error() {
    let mut state = shop_state();
    let err = add_schema_from_binary(&mut state, &[0x0a, 0x05]).unwrap_err();
    assert!(matches!(err, ProtoDuckError::DecodeError(_)));
    assert!(get_message_descriptor(&state, "shop.Order").is_ok());
}

#[test]
fn decoded_message_renders_as_sorted_json() {
    let state = shop_state();
    let bytes = sample_order(&state).encode_to_vec();
    assert_eq!(decode_to_json(&state, &bytes, "shop.Order").unwrap(), sample_json());
    assert_eq!(decode_to_json(&state, &bytes, ".shop.Order").unwrap(), sample_json());
}

#[test]
fn message_to_json_of_a_built_message() {
    let state = shop_state();
    let json = message_to_json(&sample_order(&state)).unwrap();
    assert_eq!(json_to_string(&json), sample_json());
}

#[test]
fn empty_message_shows_empty_lists_and_maps_only() {
    let state = shop_state();
    let m = DynamicMessage::new(get_message_descriptor(&state, "shop.Order").unwrap());
    let json = json_to_string(&message_to_json(&m).unwrap());
    assert_eq!(
        json,
        r#"{"codes":{},"flags":{},"metadata":{},"states":{},"stops":[],"tags":[]}"#
    );
}

#[test]
fn unknown_enum_number_stays_a_number() {
    let state = shop_state();
    let mut m = DynamicMessage::new(get_message_descriptor(&state, "shop.Order").unwrap());
    m.set_field_by_name("status", Value::EnumNumber(9));
    let json = json_to_string(&message_to_json(&m).unwrap());
    assert!(json.contains(r#""status":9"#));
    assert_eq!(extract_field_value(&m, "status").unwrap(), "9");
}

#[test]
fn json_strings_are_escaped() {
    let state = shop_state();
    let mut m = DynamicMessage::new(get_message_descriptor(&state, "shop.Address").unwrap());
    m.set_field_by_name("street", Value::String("a\\b\n\u{1}\"".to_string()));
    let json = json_to_string(&message_to_json(&m).unwrap());
    assert_eq!(json, r#"{"street":"a\\b\n\u0001\""}"#);
}

#[test]
fn fields_are_read_by_path() {
    let state = shop_state();
    let m = sample_order(&state);
    let cases = [
        ("order_id", "42"),
        ("customer", "Ann \"A\""),
        ("tags[1]", "y"),
        ("tags", r#"["x","y"]"#),
        ("status", "SHIPPED"),
        ("metadata['k']", "v"),
        ("metadata[\"k\"]", "v"),
        ("metadata", r#"{"k":"v"}"#),
        ("address.city", "Oslo"),
        ("address", r#"{"city":"Oslo","street":"Main"}"#),
        ("payload", "aGVsbG8="),
        ("total", "1.5"),
        ("weight", "0.25"),
        ("gift", "true"),
        ("codes[-5]", "neg"),
        ("flags[true]", "yes"),
        ("states['a']", "DELIVERED"),
        ("states", r#"{"a":"DELIVERED"}"#),
        ("codes", r#"{"-5":"neg"}"#),
        ("stops", r#"[{"city":"X"}]"#),
        ("stops[0].city", "X"),
        ("stops[0].street", ""),
        ("count", "7"),
        ("maybe", "0"),
        ("phone", ""),
        ("email", "a@b"),
    ];
    for (path, expected) in cases {
        assert_eq!(extract_field_value(&m, path).unwrap(), expected, "path {}", path);
    }
}

#[test]
fn unset_message_field_reads_as_an_empty_object() {
    let state = shop_state();
    let m = DynamicMessage::new(get_message_descriptor(&state, "shop.Order").unwrap());
    assert_eq!(extract_field_value(&m, "address").unwrap(), "{}");
    assert_eq!(extract_field_value(&m, "address.city").unwrap(), "");
    assert_eq!(extract_field_value(&m, "tags").unwrap(), "[]");
    assert_eq!(extract_field_value(&m, "metadata").unwrap(), "{}");
    assert_eq!(extract_field_value(&m, "status").unwrap(), "PENDING");
}

#[test]
fn index_past_the_end_is_out_of_bounds() {
    let state = shop_state();
    let m = sample_order(&state);
    match extract_field_value(&m, "tags[5]") {
        Err(ProtoDuckError::IndexOutOfBounds(i, p, n)) => {
            assert_eq!((i, p.as_str(), n), (5, "tags[5]", 2));
        }
        other => panic!("expected IndexOutOfBounds, got {:?}", other),
    }
}

#[test]
fn index_on_a_single_value_is_refused() {
    let state = shop_state();
    let m = sample_order(&state);
    match extract_field_value(&m, "customer[0]") {
        Err(ProtoDuckError::NotARepeatedField(p)) => assert_eq!(p, "customer[0]"),
        other => panic!("expected NotARepeatedField, got {:?}", other),
    }
}

#[test]
fn unknown_field_names_its_message_type() {
    let state = shop_state();
    let m = sample_order(&state);
    match extract_field_value(&m, "address.zip") {
        Err(ProtoDuckError::FieldNotFound(f, t)) => {
            assert_eq!((f.as_str(), t.as_str()), ("zip", "shop.Address"));
        }
        other => panic!("expected FieldNotFound, got {:?}", other),
    }
}

fn invalid_path(m: &DynamicMessage, path: &str) -> String {
    match extract_field_value(m, path) {
        Err(ProtoDuckError::InvalidFieldPath(text)) => text,
        other => panic!("expected InvalidFieldPath for {}, got {:?}", path, other),
    }
}

#[test]
fn paths_that_do_not_fit_the_value_are_invalid() {
    let state = shop_state();
    let m = sample_order(&state);
    assert_eq!(
        invalid_path(&m, "tags.x"),
        "Cannot access field 'x' on a repeated value - use an index first"
    );
    assert_eq!(
        invalid_path(&m, "customer['k']"),
        "Cannot access map key 'k' on non-map value"
    );
    assert_eq!(
        invalid_path(&m, "customer.x"),
        "Cannot access field 'x' on non-message value"
    );
    assert_eq!(
        invalid_path(&m, "codes[x]"),
        "Map key 'x' cannot be parsed as int32 in 'codes[x]'"
    );
    assert_eq!(
        invalid_path(&m, "flags[yes]"),
        "Map key 'yes' cannot be parsed as bool in 'flags[yes]'"
    );
    assert_eq!(invalid_path(&m, ""), "Empty field path");
    assert_eq!(invalid_path(&m, "metadata['k"), "Expected ']' after quoted map key");
}

#[test]
fn missing_map_key_is_reported_with_the_path() {
    let state = shop_state();
    let m = sample_order(&state);
    match extract_field_value(&m, "metadata['zz']") {
        Err(ProtoDuckError::MapKeyNotFound(k, p)) => {
            assert_eq!((k.as_str(), p.as_str()), ("zz", "metadata['zz']"));
        }
        other => panic!("expected MapKeyNotFound, got {:?}", other),
    }
    match extract_field_value(&m, "codes[1]") {
        Err(ProtoDuckError::MapKeyNotFound(k, p)) => {
            assert_eq!((k.as_str(), p.as_str()), ("1", "codes[1]"));
        }
        other => panic!("expected MapKeyNotFound, got {:?}", other),
    }
}

#[test]
fn decode_field_reads_encoded_bytes() {
    let state = shop_state();
    let bytes = sample_order(&state).encode_to_vec();
    assert_eq!(decode_field(&state, &bytes, "shop.Order", "tags[0]").unwrap(), "x");
    assert_eq!(decode_field(&state, &bytes, "shop.Order", "stops[0].city").unwrap(), "X");
}

#[test]
fn decoding_needs_a_registered_type_and_valid_bytes() {
    let state = shop_state();
    match decode_to_json(&state, &[], "nope.X") {
        Err(ProtoDuckError::MessageTypeNotFound(n)) => assert_eq!(n, "nope.X"),
        other => panic!("expected MessageTypeNotFound, got {:?}", other),
    }
    assert!(matches!(
        decode_message(&state, &[0x0a], "shop.Order"),
        Err(ProtoDuckError::DecodeError(_))
    ));
    assert!(matches!(
        decode_field(&state, &[0x0a], "shop.Order", "tags"),
        Err(ProtoDuckError::DecodeError(_))
    ));
}

#[test]
fn empty_bytes_decode_to_the_default_message() {
    let state = shop_state();
    assert_eq!(
        decode_to_json(&state, &[], "shop.Address").unwrap(),
        "{}"
    );
    assert_eq!(decode_field(&state, &[], "shop.Order", "order_id").unwrap(), "0");
}

#[test]
fn message_types_are_described() {
    let state = shop_state();
    assert_eq!(
        describe_message_type(&state, "shop.Address").unwrap(),
        "message Address {\n  optional string street = 1;\n  optional string city = 2;\n}"
    );
    let expected = [
        "message Order {\n",
        "  optional int64 order_id = 1;\n",
        "  optional string customer = 2;\n",
        "  repeated string tags = 3;\n",
        "  optional enum Status status = 4;\n",
        "  map<string, string> metadata = 5;\n",
        "  optional Address address = 6;\n",
        "  optional bytes payload = 7;\n",
        "  optional double total = 8;\n",
        "  optional float weight = 9;\n",
        "  optional bool gift = 10;\n",
        "  map<int32, string> codes = 11;\n",
        "  map<bool, string> flags = 12;\n",
        "  map<string, enum Status> states = 13;\n",
        "  repeated Address stops = 14;\n",
        "  optional uint32 count = 15;\n",
        "  optional int32 maybe = 16;\n",
        "  optional string email = 17;\n",
        "  optional string phone = 18;\n",
        "  oneof contact {\n",
        "    string email = 17;\n",
        "    string phone = 18;\n",
        "  }\n",
        "}",
    ]
    .concat();
    assert_eq!(describe_message_type(&state, ".shop.Order").unwrap(), expected);
}

#[test]
fn describing_an_unknown_type_fails() {
    let state = shop_state();
    match describe_message_type(&state, ".shop.Missing") {
        Err(ProtoDuckError::MessageTypeNotFound(n)) => assert_eq!(n, "shop.Missing"),
        other => panic!("expected MessageTypeNotFound, got {:?}", other),
    }
}

#[test]
fn load_report_lists_the_types() {
    let types = vec!["a.B".to_string(), "a.C".to_string()];
    assert_eq!(loaded_types_report(&types), "Loaded 2 message type(s): a.B, a.C");
    assert_eq!(loaded_types_report(&Vec::new()), "Loaded 0 message type(s): ");
    assert_eq!(loaded_types_report(&vec!["x.Y".to_string()]), "Loaded 1 message type(s): x.Y");
}

#[test]
fn repeated_values_read_as_json_arrays() {
    let proto = r#"
        syntax = "proto3";
        package lists;
        enum Color { RED = 0; GREEN = 1; }
        message Bag {
            repeated Color colors = 1;
            repeated double sizes = 2;
            repeated int32 counts = 3;
            map<string, Color> named = 4;
        }
    "#;
    let mut state = DescriptorPoolState::default();
    add_schema_from_proto(&mut state, proto).unwrap();
    let mut m = DynamicMessage::new(get_message_descriptor(&state, "lists.Bag").unwrap());
    m.set_field_by_name(
        "colors",
        Value::List(vec![Value::EnumNumber(1), Value::EnumNumber(5), Value::EnumNumber(0)]),
    );
    m.set_field_by_name("sizes", Value::List(vec![Value::F64(1.0), Value::F64(2.5)]));
    m.set_field_by_name("counts", Value::List(vec![Value::I32(-1), Value::I32(2)]));
    m.set_field_by_name(
        "named",
        Value::Map(HashMap::from([(MapKey::String("x".to_string()), Value::EnumNumber(1))])),
    );
    assert_eq!(extract_field_value(&m, "colors").unwrap(), r#"["GREEN",5,"RED"]"#);
    assert_eq!(extract_field_value(&m, "colors[0]").unwrap(), "GREEN");
    assert_eq!(extract_field_value(&m, "colors[1]").unwrap(), "5");
    assert_eq!(extract_field_value(&m, "sizes").unwrap(), "[1.0,2.5]");
    assert_eq!(extract_field_value(&m, "sizes[0]").unwrap(), "1");
    assert_eq!(extract_field_value(&m, "counts").unwrap(), "[-1,2]");
    assert_eq!(extract_field_value(&m, "named").unwrap(), r#"{"x":"GREEN"}"#);
    assert_eq!(extract_field_value(&m, "named['x']").unwrap(), "GREEN");
    assert_eq!(
        json_to_string(&message_to_json(&m).unwrap()),
        r#"{"colors":["GREEN",5,"RED"],"counts":[-1,2],"named":{"x":"GREEN"},"sizes":[1.0,2.5]}"#
    );
}

#[test]
fn redefining_a_type_is_refused_by_the_pool() {
    let mut state = shop_state();
    let err = add_schema_from_proto(&mut state, SHOP_PROTO).unwrap_err();
    assert!(matches!(err, ProtoDuckError::DescriptorError(_)));
    assert!(get_message_descriptor(&state, "shop.Order").is_ok());
    let again = add_schema_from_binary(&mut state, &binary_set()).unwrap();
    assert_eq!(again, vec!["bin.Thing"]);
    let twice = add_schema_from_binary(&mut state, &binary_set()).unwrap();
    assert!(twice.is_empty());
    assert!(get_message_descriptor(&state, "bin.Thing").is_ok());
}

#[test]
fn batches_map_missing_inputs_to_none_and_stop_at_the_first_error() {
    let state = shop_state();
    let bytes = sample_order(&state).encode_to_vec();
    let rows: Vec<(Option<&[u8]>, Option<&str>)> = vec![
        (Some(&bytes[..]), Some("shop.Order")),
        (None, Some("shop.Order")),
        (Some(&bytes[..]), None),
    ];
    let out = rows_to_json(&state, &rows).unwrap();
    assert_eq!(out, vec![Some(sample_json()), None, None]);

    let bad: Vec<(Option<&[u8]>, Option<&str>)> =
        vec![(Some(&bytes[..]), Some("shop.Order")), (Some(&[][..]), Some("nope.X"))];
    assert!(matches!(
        rows_to_json(&state, &bad),
        Err(ProtoDuckError::MessageTypeNotFound(_))
    ));

    let fields: Vec<(Option<&[u8]>, Option<&str>, Option<&str>)> = vec![
        (Some(&bytes[..]), Some("shop.Order"), Some("tags[1]")),
        (Some(&bytes[..]), Some("shop.Order"), None),
    ];
    assert_eq!(rows_to_field(&state, &fields).unwrap(), vec![Some("y".to_string()), None]);
}

#[test]
fn a_new_registry_has_the_well_known_types() {
    let state = DescriptorPoolState::new();
    for name in ["google.protobuf.Any", "google.protobuf.Timestamp", "google.protobuf.UInt64Value"] {
        assert!(get_message_descriptor(&state, name).is_ok(), "{}", name);
    }
}
