use reintrospection::ident::valid_identifier;

#[test]
fn plain_names_are_valid_identifiers() {
    assert!(valid_identifier("User"));
    assert!(valid_identifier("_ok9"));
    assert!(valid_identifier("a"));
}

#[test]
fn oddly_shaped_values_are_not_identifiers() {
    assert!(!valid_identifier(""));
    assert!(!valid_identifier("@"));
    assert!(!valid_identifier("9lives"));
    assert!(!valid_identifier("has-dash"));
    assert!(!valid_identifier("has space"));
}
