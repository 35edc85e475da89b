use protoduck::descriptor_pool::{add_schema_from_proto, get_message_descriptor, DescriptorPoolState};

#[test]
fn test_add_and_get_schema() {
    let proto = r#"
            syntax = "proto3";
            package test;

            message Person {
                string name = 1;
                int32 age = 2;
            }
        "#;

    let mut state = DescriptorPoolState::default();
    let types = add_schema_from_proto(&mut state, proto).unwrap();
    assert!(types.iter().any(|t| t.contains("Person")));

    let descriptor = get_message_descriptor(&state, "test.Person").unwrap();
    assert_eq!(descriptor.name(), "Person");
}
