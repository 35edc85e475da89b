use protoduck::error::ProtoDuckError;
use protoduck::path::{parse_field_path, PathPart};

fn describe(parts: &[PathPart]) -> Vec<String> {
    parts
        .iter()
        .map(|p| match p {
            PathPart::Field(s) => format!("F:{}", s),
            PathPart::Index(i) => format!("I:{}", i),
            PathPart::MapKey(k) => format!("K:{}", k),
        })
        .collect()
}

fn invalid_path_message(path: &str) -> String {
    match parse_field_path(path) {
        Err(ProtoDuckError::InvalidFieldPath(m)) => m,
        other => panic!("expected an invalid path error, got {:?}", other),
    }
}

#[test]
fn combined_path_parses_into_its_parts() {
    let parts = parse_field_path("orders[0].items[1].product.name").unwrap();
    assert_eq!(
        describe(&parts),
        vec!["F:orders", "I:0", "F:items", "I:1", "F:product", "F:name"]
    );
}

#[test]
fn double_quoted_map_key() {
    let parts = parse_field_path("metadata[\"key\"]").unwrap();
    assert_eq!(describe(&parts), vec!["F:metadata", "K:key"]);
}

#[test]
fn quoted_digits_stay_a_map_key() {
    let parts = parse_field_path("m[\"12\"]").unwrap();
    assert_eq!(describe(&parts), vec!["F:m", "K:12"]);
}

#[test]
fn quoted_key_may_hold_dots_and_brackets() {
    let parts = parse_field_path("m['a.b[c]'].x").unwrap();
    assert_eq!(describe(&parts), vec!["F:m", "K:a.b[c]", "F:x"]);
}

#[test]
fn unquoted_non_number_is_a_map_key() {
    let parts = parse_field_path("m[abc]").unwrap();
    assert_eq!(describe(&parts), vec!["F:m", "K:abc"]);
    let parts = parse_field_path("m[-1]").unwrap();
    assert_eq!(describe(&parts), vec!["F:m", "K:-1"]);
}

#[test]
fn plus_sign_and_leading_zeros_give_an_index() {
    let parts = parse_field_path("m[+7]").unwrap();
    assert_eq!(describe(&parts), vec!["F:m", "I:7"]);
    let parts = parse_field_path("m[007]").unwrap();
    assert_eq!(describe(&parts), vec!["F:m", "I:7"]);
}

#[test]
fn index_beyond_usize_is_a_map_key() {
    let parts = parse_field_path("m[18446744073709551616]").unwrap();
    assert_eq!(describe(&parts), vec!["F:m", "K:18446744073709551616"]);
}

#[test]
fn empty_names_are_skipped() {
    let parts = parse_field_path(".a..b.").unwrap();
    assert_eq!(describe(&parts), vec!["F:a", "F:b"]);
}

#[test]
fn leading_bracket_is_allowed() {
    let parts = parse_field_path("[3]").unwrap();
    assert_eq!(describe(&parts), vec!["I:3"]);
}

#[test]
fn unclosed_bracket_runs_to_the_end() {
    let parts = parse_field_path("m[12").unwrap();
    assert_eq!(describe(&parts), vec!["F:m", "I:12"]);
    let parts = parse_field_path("m[").unwrap();
    assert_eq!(describe(&parts), vec!["F:m", "K:"]);
}

#[test]
fn empty_path_is_refused() {
    assert_eq!(invalid_path_message(""), "Empty field path");
    assert_eq!(invalid_path_message("..."), "Empty field path");
}

#[test]
fn unclosed_quoted_key_is_refused() {
    assert_eq!(invalid_path_message("m['key"), "Expected ']' after quoted map key");
    assert_eq!(invalid_path_message("m[\"key\"x]"), "Expected ']' after quoted map key");
    assert_eq!(invalid_path_message("m['key'"), "Expected ']' after quoted map key");
}

#[test]
fn rendered_parts_parse_back() {
    // a path written from its parts reads back as those parts, with either quote
    for path in ["a.b[3][\"k\"].c", "a.b[3]['k'].c"] {
        let parts = parse_field_path(path).unwrap();
        assert_eq!(describe(&parts), vec!["F:a", "F:b", "I:3", "K:k", "F:c"]);
    }
}
