//! Enum handling end to end: literals, output serialisation, string
//! literals refused, and variables in both enum and string form.

use graphql_core::ArgumentMeta;
use graphql_core::Arguments;
use graphql_core::FieldMeta;
use graphql_core::FieldResult;
use graphql_core::GraphQLError;
use graphql_core::GraphQLMetaType;
use graphql_core::GraphQLType;
use graphql_core::InputValue;
use graphql_core::MetaType;
use graphql_core::Registry;
use graphql_core::Resolved;
use graphql_core::RootNode;
use graphql_core::RuleError;
use graphql_core::SourcePosition;
use graphql_core::TypeRef;
use graphql_core::Value;
use graphql_core::execute;
use graphql_core::object_field;

#[derive(Debug)]
enum Color {
    Red,
    Green,
    Blue,
}

struct TestType;

impl GraphQLMetaType for TestType {
    fn name() -> Option<String> {
        Some("TestType".to_string())
    }

    fn meta(registry: &mut Registry) -> MetaType {
        registry.insert(MetaType::Enum {
            name: "Color".to_string(),
            values: vec!["RED".to_string(), "GREEN".to_string(), "BLUE".to_string()],
        });
        MetaType::Object {
            name: "TestType".to_string(),
            fields: vec![
                FieldMeta {
                    name: "toString".to_string(),
                    description: None,
                    arguments: vec![ArgumentMeta {
                        name: "color".to_string(),
                        description: None,
                        arg_type: TypeRef::NonNullNamed("Color".to_string()),
                        default_value: None,
                    }],
                    field_type: TypeRef::NonNullNamed("String".to_string()),
                    deprecation_reason: None,
                },
                FieldMeta {
                    name: "aColor".to_string(),
                    description: None,
                    arguments: vec![],
                    field_type: TypeRef::NonNullNamed("Color".to_string()),
                    deprecation_reason: None,
                },
            ],
            interfaces: vec![],
        }
    }
}

fn color_from_input(v: Option<&InputValue>) -> Option<Color> {
    let s = match v {
        Some(InputValue::Enum(s)) => s.as_str(),
        Some(InputValue::Str(s)) => s.as_str(),
        _ => return None,
    };
    match s {
        "RED" => Some(Color::Red),
        "GREEN" => Some(Color::Green),
        "BLUE" => Some(Color::Blue),
        _ => None,
    }
}

impl GraphQLType<()> for TestType {
    fn concrete_type_name(&self, _context: &()) -> String {
        "TestType".to_string()
    }

    fn resolve_field(
        &self,
        _context: &(),
        field_name: &str,
        arguments: &Arguments,
    ) -> FieldResult<Self> {
        if field_name == "toString" {
            let color = match color_from_input(arguments.get("color")) {
                Some(c) => c,
                None => return Err("Invalid color".to_string()),
            };
            Ok(Resolved::Value(Value::string(&format!("Color::{:?}", color))))
        } else if field_name == "aColor" {
            Ok(Resolved::Value(Value::string("RED")))
        } else {
            Err("Unknown field".to_string())
        }
    }
}

fn run_variable_query<F>(query: &str, vars: Vec<(String, InputValue)>, f: F)
where
    F: Fn(&Vec<(String, Value)>) -> (),
{
    let schema = RootNode::new(TestType, ());

    let (result, errs) = execute(query, None, &schema, &vars, &()).expect("Execution failed");

    assert_eq!(errs, []);

    let obj = result.as_object_value().expect("Result is not an object");

    f(obj);
}

fn run_query<F>(query: &str, f: F)
where
    F: Fn(&Vec<(String, Value)>) -> (),
{
    run_variable_query(query, Vec::new(), f);
}

#[test]
fn accepts_enum_literal() {
    run_query("{ toString(color: RED) }", |result| {
        assert_eq!(
            object_field(result, "toString"),
            Some(&Value::string("Color::Red"))
        );
    });
}

#[test]
fn serializes_as_output() {
    run_query("{ aColor }", |result| {
        assert_eq!(object_field(result, "aColor"), Some(&Value::string("RED")));
    });
}

#[test]
fn required_arguments_must_be_written() {
    let schema = RootNode::new(TestType, ());
    let error = execute("{ toString }", None, &schema, &vec![], &()).unwrap_err();
    match error {
        GraphQLError::ValidationError(es) => {
            assert_eq!(es.len(), 1);
            assert_eq!(
                es[0].message,
                r#"Field "toString" argument "color" of type "Color!" is required but not provided"#
            );
        }
        other => panic!("expected a validation error, got {:?}", other),
    }
}

#[test]
fn does_not_accept_string_literals() {
    let schema = RootNode::new(TestType, ());

    let query = r#"{ toString(color: "RED") }"#;
    let vars = vec![];

    let error = execute(query, None, &schema, &vars, &()).unwrap_err();

    assert_eq!(
        error,
        GraphQLError::ValidationError(vec![RuleError::new(
            r#"Invalid value for argument "color", expected type "Color!""#,
            &[SourcePosition::new(18, 0, 18)],
        )])
    );
}

#[test]
fn accepts_strings_in_variables() {
    run_variable_query(
        "{ toString(color: RED) }",
        vec![("color".to_owned(), InputValue::string("RED"))],
        |result| {
            assert_eq!(
                object_field(result, "toString"),
                Some(&Value::string("Color::Red"))
            );
        },
    );
}

#[test]
fn accepts_enum_supplied_as_string_variable() {
    run_variable_query(
        "query q($color: Color!) { toString(color: $color) }",
        vec![("color".to_owned(), InputValue::string("RED"))],
        |result| {
            assert_eq!(
                object_field(result, "toString"),
                Some(&Value::string("Color::Red"))
            );
        },
    );
}

#[test]
fn does_not_accept_incorrect_enum_name_in_variables() {
    let schema = RootNode::new(TestType, ());

    let query = r#"query q($color: Color!) { toString(color: $color) }"#;
    let vars = vec![("color".to_owned(), InputValue::string("BLURPLE"))];

    let error = execute(query, None, &schema, &vars, &()).unwrap_err();

    assert_eq!(
        error,
        GraphQLError::ValidationError(vec![RuleError::new(
            r#"Variable "$color" got invalid value. Invalid value for enum "Color"."#,
            &[SourcePosition::new(8, 0, 8)],
        )])
    );
}

#[test]
fn does_not_accept_incorrect_type_in_variables() {
    let schema = RootNode::new(TestType, ());

    let query = r#"query q($color: Color!) { toString(color: $color) }"#;
    let vars = vec![("color".to_owned(), InputValue::int_value(123))];

    let error = execute(query, None, &schema, &vars, &()).unwrap_err();

    assert_eq!(
        error,
        GraphQLError::ValidationError(vec![RuleError::new(
            r#"Variable "$color" got invalid value. Expected "Color", found not a string or enum."#,
            &[SourcePosition::new(8, 0, 8)],
        )])
    );
}
