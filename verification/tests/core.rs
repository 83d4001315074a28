//! The lexer, parser, coercion, and executor on concrete cases: reparse
//! round trips, value coercion round trips, result-key ordering, repeat
//! execution, and the operation-selection errors.

use graphql_core::ArgumentMeta;
use graphql_core::Arguments;
use graphql_core::Definition;
use graphql_core::Document;
use graphql_core::Field;
use graphql_core::FieldMeta;
use graphql_core::FieldResult;
use graphql_core::GraphQLError;
use graphql_core::GraphQLMetaType;
use graphql_core::GraphQLType;
use graphql_core::InputValue;
use graphql_core::MetaType;
use graphql_core::OperationType;
use graphql_core::Registry;
use graphql_core::Resolved;
use graphql_core::RootNode;
use graphql_core::Selection;
use graphql_core::Spanning;
use graphql_core::TypeRef;
use graphql_core::Value;
use graphql_core::coerce_value;
use graphql_core::execute;
use graphql_core::object_field;
use graphql_core::parse_document;

// A canonical printer over the public AST, used to check that printing an
// accepted document and parsing it again round-trips.

fn print_value(v: &InputValue, out: &mut String) {
    match v {
        InputValue::Null => out.push_str("null"),
        InputValue::Int(i) => out.push_str(&i.to_string()),
        InputValue::Float(s) => out.push_str(s),
        InputValue::Str(s) => {
            out.push('"');
            for c in s.chars() {
                match c {
                    '"' => out.push_str("\\\""),
                    '\\' => out.push_str("\\\\"),
                    '\n' => out.push_str("\\n"),
                    _ => out.push(c),
                }
            }
            out.push('"');
        }
        InputValue::Boolean(true) => out.push_str("true"),
        InputValue::Boolean(false) => out.push_str("false"),
        InputValue::Enum(s) => out.push_str(s),
        InputValue::Variable(s) => {
            out.push('$');
            out.push_str(s);
        }
        InputValue::List(items) => {
            out.push('[');
            for (k, item) in items.iter().enumerate() {
                if k > 0 {
                    out.push_str(", ");
                }
                print_value(&item.item, out);
            }
            out.push(']');
        }
        InputValue::Object(fields) => {
            out.push('{');
            for (k, f) in fields.iter().enumerate() {
                if k > 0 {
                    out.push_str(", ");
                }
                out.push_str(&f.0.item);
                out.push_str(": ");
                print_value(&f.1.item, out);
            }
            out.push('}');
        }
    }
}

fn print_type(t: &TypeRef, out: &mut String) {
    match t {
        TypeRef::Named(n) => out.push_str(n),
        TypeRef::NonNullNamed(n) => {
            out.push_str(n);
            out.push('!');
        }
        TypeRef::List(inner) => {
            out.push('[');
            print_type(inner, out);
            out.push(']');
        }
        TypeRef::NonNullList(inner) => {
            out.push('[');
            print_type(inner, out);
            out.push_str("]!");
        }
    }
}

fn print_field(f: &Field, out: &mut String) {
    if let Some(a) = &f.alias {
        out.push_str(&a.item);
        out.push_str(": ");
    }
    out.push_str(&f.name.item);
    if !f.arguments.is_empty() {
        out.push('(');
        for (k, a) in f.arguments.iter().enumerate() {
            if k > 0 {
                out.push_str(", ");
            }
            out.push_str(&a.0.item);
            out.push_str(": ");
            print_value(&a.1.item, out);
        }
        out.push(')');
    }
    if let Some(ss) = &f.selection_set {
        out.push(' ');
        print_selection_set(ss, out);
    }
}

fn print_selection_set(sels: &Vec<Selection>, out: &mut String) {
    out.push_str("{ ");
    for (k, sel) in sels.iter().enumerate() {
        if k > 0 {
            out.push(' ');
        }
        match sel {
            Selection::Field(f) => print_field(&f.item, out),
            Selection::FragmentSpread(s) => {
                out.push_str("...");
                out.push_str(&s.item.name.item);
            }
            Selection::InlineFragment(il) => {
                out.push_str("...");
                if let Some(c) = &il.item.type_condition {
                    out.push_str(" on ");
                    out.push_str(&c.item);
                }
                out.push(' ');
                print_selection_set(&il.item.selection_set, out);
            }
        }
    }
    out.push_str(" }");
}

fn print_document(doc: &Document) -> String {
    let mut out = String::new();
    for d in doc.iter() {
        match d {
            Definition::Operation(op) => {
                match op.item.operation_type {
                    OperationType::Query => out.push_str("query "),
                    OperationType::Mutation => out.push_str("mutation "),
                }
                if let Some(n) = &op.item.name {
                    out.push_str(&n.item);
                }
                if !op.item.variable_definitions.is_empty() {
                    out.push('(');
                    for (k, vd) in op.item.variable_definitions.iter().enumerate() {
                        if k > 0 {
                            out.push_str(", ");
                        }
                        out.push('$');
                        out.push_str(&vd.0.item);
                        out.push_str(": ");
                        print_type(&vd.1.var_type.item, &mut out);
                        if let Some(dv) = &vd.1.default_value {
                            out.push_str(" = ");
                            print_value(&dv.item, &mut out);
                        }
                    }
                    out.push(')');
                }
                out.push(' ');
                print_selection_set(&op.item.selection_set, &mut out);
            }
            Definition::Fragment(fr) => {
                out.push_str("fragment ");
                out.push_str(&fr.item.name.item);
                out.push_str(" on ");
                out.push_str(&fr.item.type_condition.item);
                out.push(' ');
                print_selection_set(&fr.item.selection_set, &mut out);
            }
        }
        out.push('\n');
    }
    out
}

/// Printing an accepted document and parsing the result again prints the
/// same text. The printer reads every part of the tree except source
/// spans, so equal printed forms mean the reparsed document equals the
/// original up to spans — the re-parse equality modulo insignificant
/// whitespace.
fn assert_reparse_round_trip(q: &str) {
    let doc = parse_document(q).expect("fixture must parse");
    let printed = print_document(&doc);
    let doc2 = parse_document(&printed).expect("printed form must parse");
    let printed2 = print_document(&doc2);
    assert_eq!(printed, printed2);
}

#[test]
fn reparse_round_trip_simple() {
    assert_reparse_round_trip("{ hero { name friends { name } } }");
}

#[test]
fn reparse_round_trip_full() {
    assert_reparse_round_trip(
        r#"
        query Foo($var: [String!]! = ["x", "y"], $n: Int) {
          alias: user(id: 4, opts: {depth: 2, flag: true, pi: 3.5e1, nothing: null}) {
            pets { ... on Pet { name }, ...PetFields, ... { name } }
          }
        }
        mutation { doIt(arg: $var) }
        fragment PetFields on Pet { name }
        "#,
    );
}

fn scalar_types() -> Vec<(String, MetaType)> {
    Registry::new().types
}

#[test]
fn coercion_round_trip_is_identity() {
    let types = scalar_types();
    let list_of_int = TypeRef::List(Box::new(TypeRef::Named("Int".to_string())));

    // A bare int wraps into a one-element list; coercing the coerced form
    // again leaves it unchanged.
    let once = coerce_value(&types, &list_of_int, &InputValue::int_value(5)).unwrap();
    let twice = coerce_value(&types, &list_of_int, &once).unwrap();
    assert_eq!(once, twice);

    let t_id = TypeRef::Named("ID".to_string());
    let once = coerce_value(&types, &t_id, &InputValue::string("abc")).unwrap();
    let twice = coerce_value(&types, &t_id, &once).unwrap();
    assert_eq!(once, twice);
}

#[test]
fn enum_coercion_normalises_strings() {
    let mut registry = Registry::new();
    registry.insert(MetaType::Enum {
        name: "Color".to_string(),
        values: vec!["RED".to_string(), "GREEN".to_string()],
    });
    let types = registry.types;
    let t = TypeRef::NonNullNamed("Color".to_string());
    let once = coerce_value(&types, &t, &InputValue::string("RED")).unwrap();
    assert_eq!(once, InputValue::enum_value("RED"));
    let twice = coerce_value(&types, &t, &once).unwrap();
    assert_eq!(once, twice);
    assert_eq!(
        coerce_value(&types, &t, &InputValue::string("MAUVE")).unwrap_err(),
        r#"Invalid value for enum "Color"."#.to_string()
    );
    assert_eq!(
        coerce_value(&types, &t, &InputValue::null()).unwrap_err(),
        r#"Expected "Color!", found null."#.to_string()
    );
}

#[test]
fn string_escapes_decode() {
    let doc = parse_document(r#"{ f(s: "aA\u0042\n\t\"\\b") }"#).expect("must parse");
    let op = match &doc[0] {
        Definition::Operation(op) => op,
        _ => panic!("expected an operation"),
    };
    let f = match &op.item.selection_set[0] {
        Selection::Field(f) => f,
        _ => panic!("expected a field"),
    };
    match &f.item.arguments[0].1.item {
        InputValue::Str(s) => assert_eq!(s, "aAB\n\t\"\\b"),
        other => panic!("expected a string literal, got {:?}", other),
    }
}

#[test]
fn int_literals_parse_and_overflow_is_refused() {
    let doc = parse_document("{ f(a: 2147483647, b: -2147483648, c: 0) }").expect("must parse");
    let op = match &doc[0] {
        Definition::Operation(op) => op,
        _ => panic!("expected an operation"),
    };
    let f = match &op.item.selection_set[0] {
        Selection::Field(f) => f,
        _ => panic!("expected a field"),
    };
    assert_eq!(f.item.arguments[0].1.item, InputValue::int_value(i32::MAX));
    assert_eq!(f.item.arguments[1].1.item, InputValue::int_value(i32::MIN));
    assert_eq!(f.item.arguments[2].1.item, InputValue::int_value(0));

    assert!(parse_document("{ f(a: 2147483648) }").is_err());
}

#[test]
fn parse_error_is_located() {
    let err = match execute_trivial("{ hero( }") {
        Err(GraphQLError::ParseError(e)) => e,
        other => panic!("expected a parse error, got {:?}", other),
    };
    assert_eq!(err.start.line, 0);
}

// A small ordering-oriented schema: one object with several scalar fields.

struct Wide;

impl GraphQLMetaType for Wide {
    fn name() -> Option<String> {
        Some("Wide".to_string())
    }

    fn meta(_registry: &mut Registry) -> MetaType {
        let field = |n: &str| FieldMeta {
            name: n.to_string(),
            description: None,
            arguments: vec![ArgumentMeta {
                name: "x".to_string(),
                description: None,
                arg_type: TypeRef::Named("Int".to_string()),
                default_value: Some(InputValue::int_value(7)),
            }],
            field_type: TypeRef::Named("Int".to_string()),
            deprecation_reason: None,
        };
        MetaType::Object {
            name: "Wide".to_string(),
            fields: vec![field("a"), field("b"), field("c")],
            interfaces: vec![],
        }
    }
}

impl GraphQLType<()> for Wide {
    fn concrete_type_name(&self, _context: &()) -> String {
        "Wide".to_string()
    }

    fn resolve_field(&self, _context: &(), field_name: &str, arguments: &Arguments) -> FieldResult<Self> {
        let x = match arguments.get("x") {
            Some(InputValue::Int(i)) => *i,
            _ => return Err(format!("missing argument on {}", field_name)),
        };
        Ok(Resolved::Value(Value::int_value(x)))
    }
}

fn execute_trivial(q: &str) -> Result<(Value, Vec<graphql_core::ExecutionError>), GraphQLError> {
    let schema = RootNode::new(Wide, ());
    execute(q, None, &schema, &vec![], &())
}

#[test]
fn result_keys_follow_source_order() {
    let (result, errs) = execute_trivial("{ c b first: a a __typename }").expect("must execute");
    assert_eq!(errs, []);
    let obj = result.as_object_value().expect("an object");
    let keys: Vec<&str> = obj.iter().map(|p| p.0.as_str()).collect();
    assert_eq!(keys, vec!["c", "b", "first", "a", "__typename"]);
    assert_eq!(object_field(obj, "__typename"), Some(&Value::string("Wide")));
    assert_eq!(object_field(obj, "first"), Some(&Value::int_value(7)));
}

#[test]
fn duplicate_keys_keep_first_occurrence() {
    let (result, errs) = execute_trivial("{ a(x: 1) a(x: 2) b }").expect("must execute");
    assert_eq!(errs, []);
    let obj = result.as_object_value().expect("an object");
    assert_eq!(obj.len(), 2);
    assert_eq!(object_field(obj, "a"), Some(&Value::int_value(1)));
}

#[test]
fn executing_twice_gives_identical_results() {
    let q = "{ a b(x: 3) c }";
    let first = execute_trivial(q).expect("must execute");
    let second = execute_trivial(q).expect("must execute");
    assert_eq!(first, second);
}

#[test]
fn validated_execution_runs_a_parsed_document() {
    let schema = RootNode::new(Wide, ());
    let doc = parse_document("{ b a }").expect("must parse");
    let (result, errs) =
        graphql_core::execute_validated(&doc, None, &schema, &vec![], &()).expect("must run");
    assert_eq!(errs, []);
    let obj = result.as_object_value().expect("an object");
    let keys: Vec<&str> = obj.iter().map(|p| p.0.as_str()).collect();
    assert_eq!(keys, vec!["b", "a"]);
}

#[test]
fn operation_selection_errors() {
    assert_eq!(
        execute_trivial("fragment F on Wide { a }").unwrap_err(),
        GraphQLError::NoOperationProvided
    );
    assert_eq!(
        execute_trivial("query A { a } query B { b }").unwrap_err(),
        GraphQLError::MultipleOperationsProvided
    );
    let schema = RootNode::new(Wide, ());
    assert_eq!(
        execute("query A { a }", Some("Missing"), &schema, &vec![], &()).unwrap_err(),
        GraphQLError::UnknownOperationName
    );
    let (result, errs) =
        execute("query A { a } query B { b }", Some("B"), &schema, &vec![], &()).expect("must run");
    assert_eq!(errs, []);
    let obj = result.as_object_value().expect("an object");
    assert_eq!(object_field(obj, "b"), Some(&Value::int_value(7)));
}

#[test]
fn fragments_expand_into_the_result() {
    let (result, errs) = execute_trivial(
        "{ ...Part ... on Wide { b } ... { c } } fragment Part on Wide { a }",
    )
    .expect("must execute");
    assert_eq!(errs, []);
    let obj = result.as_object_value().expect("an object");
    let keys: Vec<&str> = obj.iter().map(|p| p.0.as_str()).collect();
    assert_eq!(keys, vec!["a", "b", "c"]);
}

#[test]
fn duplicate_operation_names_are_rejected() {
    let err = execute_trivial("query A { a } query A { b }").unwrap_err();
    match err {
        GraphQLError::ValidationError(es) => {
            assert_eq!(es.len(), 1);
            assert_eq!(es[0].message, r#"There can only be one operation named "A""#);
        }
        other => panic!("expected a validation error, got {:?}", other),
    }
}

#[test]
fn anonymous_operation_must_stand_alone() {
    let err = execute_trivial("{ a } query B { b }").unwrap_err();
    match err {
        GraphQLError::ValidationError(es) => {
            assert_eq!(es.len(), 1);
            assert_eq!(
                es[0].message,
                "This anonymous operation must be the only defined operation"
            );
        }
        other => panic!("expected a validation error, got {:?}", other),
    }
}

#[test]
fn unknown_fragment_spreads_are_rejected() {
    let err = execute_trivial("{ ...Missing a }").unwrap_err();
    match err {
        GraphQLError::ValidationError(es) => {
            assert_eq!(es.len(), 1);
            assert_eq!(es[0].message, r#"Unknown fragment "Missing""#);
        }
        other => panic!("expected a validation error, got {:?}", other),
    }
}

#[test]
fn aliased_typename_resolves_to_the_type_name() {
    let (result, errs) = execute_trivial("{ t: __typename a }").expect("must run");
    assert_eq!(errs, []);
    let obj = result.as_object_value().expect("an object");
    assert_eq!(object_field(obj, "t"), Some(&Value::string("Wide")));
}

#[test]
fn duplicate_fragment_names_are_rejected() {
    let err = execute_trivial(
        "{ a } fragment F on Wide { a } fragment F on Wide { b }",
    )
    .unwrap_err();
    match err {
        GraphQLError::ValidationError(es) => {
            assert_eq!(es.len(), 1);
            assert_eq!(es[0].message, r#"There can only be one fragment named "F""#);
        }
        other => panic!("expected a validation error, got {:?}", other),
    }
}

#[test]
fn non_input_variable_types_are_rejected() {
    let err = execute_trivial("query Q($w: Wide) { a(x: 1) }").unwrap_err();
    match err {
        GraphQLError::ValidationError(es) => {
            assert_eq!(es.len(), 1);
            assert_eq!(
                es[0].message,
                r#"Variable "$w" cannot be non-input type "Wide""#
            );
        }
        other => panic!("expected a validation error, got {:?}", other),
    }
}

#[test]
fn unknown_fields_are_rejected() {
    let err = execute_trivial("{ nope }").unwrap_err();
    match err {
        GraphQLError::ValidationError(es) => {
            assert_eq!(es.len(), 1);
            assert_eq!(es[0].message, r#"Unknown field "nope" on type "Wide""#);
        }
        other => panic!("expected a validation error, got {:?}", other),
    }
}

#[test]
fn unknown_and_missing_arguments_are_rejected() {
    let err = execute_trivial("{ a(y: 1) }").unwrap_err();
    match err {
        GraphQLError::ValidationError(es) => {
            assert_eq!(es.len(), 1);
            assert_eq!(
                es[0].message,
                r#"Unknown argument "y" on field "a" of type "Wide""#
            );
        }
        other => panic!("expected a validation error, got {:?}", other),
    }
}

#[test]
fn repeated_argument_names_are_rejected() {
    let err = execute_trivial("{ a(x: 1, x: 2) }").unwrap_err();
    match err {
        GraphQLError::ValidationError(es) => {
            assert_eq!(es.len(), 1);
            assert_eq!(es[0].message, r#"There can be only one argument named "x""#);
        }
        other => panic!("expected a validation error, got {:?}", other),
    }
}

#[test]
fn selection_shapes_are_enforced() {
    let err = execute_trivial("{ a { b } }").unwrap_err();
    match err {
        GraphQLError::ValidationError(es) => {
            assert_eq!(es.len(), 1);
            assert_eq!(
                es[0].message,
                r#"Field "a" must not have a selection since type "Int" has no subfields"#
            );
        }
        other => panic!("expected a validation error, got {:?}", other),
    }
}

#[test]
fn fragment_cycles_stop_at_the_fuel_bound() {
    let (result, errs) = execute_trivial(
        "{ ...A } fragment A on Wide { ...B a } fragment B on Wide { ...A }",
    )
    .expect("must run");
    assert!(errs
        .iter()
        .any(|e| e.message == "Maximum fragment nesting exceeded"));
    let obj = result.as_object_value().expect("an object");
    assert_eq!(object_field(obj, "a"), Some(&Value::int_value(7)));
}

#[test]
fn missing_required_variable_is_reported() {
    let schema = RootNode::new(Wide, ());
    let err = execute("query Q($x: Int!) { a(x: $x) }", None, &schema, &vec![], &()).unwrap_err();
    match err {
        GraphQLError::ValidationError(es) => {
            assert_eq!(es.len(), 1);
            assert_eq!(
                es[0].message,
                r#"Variable "$x" of required type "Int!" was not provided."#
            );
        }
        other => panic!("expected a validation error, got {:?}", other),
    }
}
