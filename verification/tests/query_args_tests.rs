use reintrospection::ast::{Field, FieldArity, Model, ScalarField};
use reintrospection::query_args::{
    extract_query_args, extract_record_finder, ParsedArgument, ParsedInputValue,
};

fn scalar_field(name: &str) -> Field {
    Field::Scalar(ScalarField {
        name: name.to_string(),
        mapped_name: None,
        tpe: "integer".to_string(),
        length: None,
        arity: FieldArity::Required,
        default: None,
        updated_at: false,
        ignored: false,
        doc: None,
    })
}

fn user_model() -> Model {
    Model {
        name: "User".to_string(),
        mapped_name: None,
        doc: None,
        fields: vec![scalar_field("id"), scalar_field("age")],
        id_fields: vec![],
        indexes: vec![],
        ignored: false,
    }
}

fn arg(name: &str, value: ParsedInputValue) -> ParsedArgument {
    ParsedArgument { name: name.to_string(), value }
}

#[test]
fn record_finder_takes_the_single_selector() {
    let args = vec![arg(
        "where",
        ParsedInputValue::Object(vec![("id".to_string(), ParsedInputValue::Int(5))]),
    )];
    let rf = extract_record_finder(args, &user_model()).unwrap();
    assert_eq!(rf.field, "id");
    assert_eq!(rf.value, ParsedInputValue::Int(5));
}

#[test]
fn record_finder_rejects_two_selectors() {
    let args = vec![arg(
        "where",
        ParsedInputValue::Object(vec![
            ("id".to_string(), ParsedInputValue::Int(5)),
            ("age".to_string(), ParsedInputValue::Int(7)),
        ]),
    )];
    assert!(extract_record_finder(args, &user_model()).is_err());
}

#[test]
fn query_args_fold_in_order() {
    let args = vec![
        arg("skip", ParsedInputValue::Int(5)),
        arg("first", ParsedInputValue::Null),
        arg("orderBy", ParsedInputValue::Text("id".to_string())),
        arg("after", ParsedInputValue::Text("cursor".to_string())),
        arg(
            "where",
            ParsedInputValue::Object(vec![("age".to_string(), ParsedInputValue::Int(30))]),
        ),
        arg("unrelated", ParsedInputValue::Boolean(true)),
    ];
    let q = extract_query_args(args, &user_model()).unwrap();
    assert_eq!(q.skip, Some(5));
    assert_eq!(q.first, None);
    assert_eq!(q.last, None);
    assert_eq!(q.order_by, Some(ParsedInputValue::Text("id".to_string())));
    assert_eq!(q.after, Some(ParsedInputValue::Text("cursor".to_string())));
    assert_eq!(q.before, None);
    assert_eq!(
        q.filter,
        Some(vec![("age".to_string(), ParsedInputValue::Int(30))])
    );
}

#[test]
fn later_argument_overrides_earlier_one() {
    let args = vec![
        arg("skip", ParsedInputValue::Int(5)),
        arg("skip", ParsedInputValue::Int(9)),
    ];
    let q = extract_query_args(args, &user_model()).unwrap();
    assert_eq!(q.skip, Some(9));
}

#[test]
fn unusable_argument_value_is_an_error() {
    let args = vec![arg("skip", ParsedInputValue::Text("five".to_string()))];
    assert!(extract_query_args(args, &user_model()).is_err());
}

#[test]
fn no_arguments_extract_to_nothing() {
    let q = extract_query_args(vec![], &user_model()).unwrap();
    assert_eq!(q.skip, None);
    assert_eq!(q.first, None);
    assert_eq!(q.last, None);
    assert_eq!(q.after, None);
    assert_eq!(q.before, None);
    assert_eq!(q.order_by, None);
    assert_eq!(q.filter, None);
}
