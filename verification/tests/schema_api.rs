//! The registry surface: builders, two-phase registration through
//! `get_type`, and fragment type conditions against interfaces and
//! unions during execution.

use graphql_core::ArgumentMeta;
use graphql_core::Arguments;
use graphql_core::FieldMeta;
use graphql_core::FieldResult;
use graphql_core::GraphQLMetaType;
use graphql_core::GraphQLType;
use graphql_core::InputValue;
use graphql_core::MetaType;
use graphql_core::Registry;
use graphql_core::Resolved;
use graphql_core::RootNode;
use graphql_core::TypeRef;
use graphql_core::Value;
use graphql_core::execute;
use graphql_core::get_type;
use graphql_core::object_field;

#[test]
fn builders_assemble_meta_entries() {
    let scalar = MetaType::build_scalar_type("Date");
    assert_eq!(scalar.name(), "Date");

    let field = FieldMeta::field("age", TypeRef::NonNullNamed("Int".to_string()))
        .description("Years since birth")
        .argument(ArgumentMeta::arg("offset", TypeRef::Named("Int".to_string())).default_of(
            InputValue::int_value(0),
        ))
        .deprecated("use birthday instead");
    assert_eq!(field.name, "age");
    assert_eq!(field.description.as_deref(), Some("Years since birth"));
    assert_eq!(field.arguments.len(), 1);
    assert_eq!(field.arguments[0].name, "offset");
    assert_eq!(
        field.arguments[0].default_value,
        Some(InputValue::int_value(0))
    );
    assert_eq!(field.deprecation_reason.as_deref(), Some("use birthday instead"));

    let obj = MetaType::build_object_type("Person", vec![field])
        .interfaces(vec!["Being".to_string()]);
    match obj {
        MetaType::Object { name, fields, interfaces } => {
            assert_eq!(name, "Person");
            assert_eq!(fields.len(), 1);
            assert_eq!(interfaces, vec!["Being".to_string()]);
        }
        other => panic!("expected an object entry, got {:?}", other),
    }

    let en = MetaType::build_enum_type("Suit", vec!["HEARTS".to_string()]);
    assert_eq!(en.name(), "Suit");
    let un = MetaType::build_union_type("Pet", vec!["Dog".to_string(), "Cat".to_string()]);
    assert_eq!(un.name(), "Pet");
    let input = MetaType::build_input_object_type(
        "Point",
        vec![ArgumentMeta::arg("x", TypeRef::NonNullNamed("Int".to_string()))],
    );
    assert_eq!(input.name(), "Point");
    let iface = MetaType::build_interface_type("Being", vec![]);
    assert_eq!(iface.name(), "Being");
}

/// A node of a small zoo: the root, a dog, or a cat. Dogs and cats form
/// the union `Pet`; dogs also implement the interface `Named`.
#[derive(Clone)]
enum Zoo {
    Root,
    Dog,
    Cat,
}

impl GraphQLMetaType for Zoo {
    fn name() -> Option<String> {
        Some("Zoo".to_string())
    }

    fn meta(registry: &mut Registry) -> MetaType {
        registry.insert(MetaType::build_interface_type(
            "Named",
            vec![FieldMeta::field(
                "name",
                TypeRef::NonNullNamed("String".to_string()),
            )],
        ));
        registry.insert(
            MetaType::build_object_type(
                "Dog",
                vec![
                    FieldMeta::field("name", TypeRef::NonNullNamed("String".to_string())),
                    FieldMeta::field("barks", TypeRef::NonNullNamed("Boolean".to_string())),
                ],
            )
            .interfaces(vec!["Named".to_string()]),
        );
        registry.insert(MetaType::build_object_type(
            "Cat",
            vec![FieldMeta::field(
                "meows",
                TypeRef::NonNullNamed("Boolean".to_string()),
            )],
        ));
        registry.insert(MetaType::build_union_type(
            "Pet",
            vec!["Dog".to_string(), "Cat".to_string()],
        ));
        MetaType::build_object_type(
            "Zoo",
            vec![
                FieldMeta::field("dog", TypeRef::NonNullNamed("Dog".to_string())),
                FieldMeta::field("cat", TypeRef::NonNullNamed("Cat".to_string())),
                FieldMeta::field("stray", TypeRef::NonNullNamed("Dog".to_string())),
            ],
        )
    }
}

impl GraphQLType<()> for Zoo {
    fn concrete_type_name(&self, _context: &()) -> String {
        match self {
            Zoo::Root => "Zoo".to_string(),
            Zoo::Dog => "Dog".to_string(),
            Zoo::Cat => "Cat".to_string(),
        }
    }

    fn resolve_field(&self, _context: &(), field_name: &str, _arguments: &Arguments) -> FieldResult<Self> {
        match (self, field_name) {
            (Zoo::Root, "dog") => Ok(Resolved::Object(Zoo::Dog)),
            (Zoo::Root, "stray") => Ok(Resolved::NullableObject(None)),
            (Zoo::Root, "cat") => Ok(Resolved::Object(Zoo::Cat)),
            (Zoo::Dog, "name") => Ok(Resolved::Value(Value::string("Rex"))),
            (Zoo::Dog, "barks") => Ok(Resolved::Value(Value::boolean(true))),
            (Zoo::Cat, "meows") => Ok(Resolved::Value(Value::boolean(true))),
            _ => Err(format!("Unknown field {}", field_name)),
        }
    }
}

#[test]
fn resolvers_answer_direct_calls() {
    let zoo = Zoo::Root;
    let outcome = zoo.resolve_field(&(), "dog", &Arguments::new());
    assert!(matches!(outcome, Ok(Resolved::Object(Zoo::Dog))));
    let missing = zoo.resolve_field(&(), "noSuchField", &Arguments::new());
    assert!(missing.is_err());
}

#[test]
fn composite_fields_need_a_selection() {
    let schema = RootNode::new(Zoo::Root, ());
    let err = execute("{ dog }", None, &schema, &vec![], &()).unwrap_err();
    match err {
        graphql_core::GraphQLError::ValidationError(es) => {
            assert_eq!(es.len(), 1);
            assert_eq!(
                es[0].message,
                r#"Field "dog" of type "Dog!" must have a selection of subfields"#
            );
        }
        other => panic!("expected a validation error, got {:?}", other),
    }
}

#[test]
fn absent_child_at_non_null_field_records_an_error_and_nulls_the_parent() {
    let schema = RootNode::new(Zoo::Root, ());
    let (result, errs) =
        execute("{ stray { name } }", None, &schema, &vec![], &()).expect("must run");
    assert_eq!(result, Value::Null);
    assert_eq!(errs.len(), 1);
    assert_eq!(
        errs[0].message,
        r#"Field "stray" of non-null type resolved to null"#
    );
    assert_eq!(errs[0].path, vec!["stray".to_string()]);
}

#[test]
fn fragment_conditions_respect_interfaces_and_unions() {
    let schema = RootNode::new(Zoo::Root, ());
    let q = r#"
        {
          dog { ...OnNamed ...OnPet ... on Cat { meows } __typename }
          cat { ...OnPet }
        }
        fragment OnNamed on Named { name }
        fragment OnPet on Pet { __typename }
    "#;
    let (result, errs) = execute(q, None, &schema, &vec![], &()).expect("must execute");
    assert_eq!(errs, []);
    let obj = result.as_object_value().expect("an object");
    let dog = match object_field(obj, "dog") {
        Some(Value::Object(fields)) => fields,
        other => panic!("expected the dog object, got {:?}", other),
    };
    // The interface fragment applies to Dog; the Cat inline fragment does
    // not; the union fragment applies to both concrete members.
    assert_eq!(object_field(dog, "name"), Some(&Value::string("Rex")));
    assert_eq!(object_field(dog, "meows"), None);
    assert_eq!(object_field(dog, "__typename"), Some(&Value::string("Dog")));
    let cat = match object_field(obj, "cat") {
        Some(Value::Object(fields)) => fields,
        other => panic!("expected the cat object, got {:?}", other),
    };
    assert_eq!(object_field(cat, "__typename"), Some(&Value::string("Cat")));
}

/// A type that registers itself through `get_type`, with a field whose
/// type cycles back to itself.
struct Looper;

impl GraphQLMetaType for Looper {
    fn name() -> Option<String> {
        Some("Looper".to_string())
    }

    fn meta(registry: &mut Registry) -> MetaType {
        // Registering the self-referential field type terminates because
        // a placeholder for Looper is catalogued before meta runs.
        let self_ref = get_type::<Looper>(registry);
        MetaType::build_object_type(
            "Looper",
            vec![FieldMeta::field("next", self_ref)],
        )
    }
}

impl GraphQLType<()> for Looper {
    fn concrete_type_name(&self, _context: &()) -> String {
        "Looper".to_string()
    }

    fn resolve_field(&self, _context: &(), _field_name: &str, _arguments: &Arguments) -> FieldResult<Self> {
        Ok(Resolved::Object(Looper))
    }
}

#[test]
fn cyclic_registration_terminates_through_placeholders() {
    let mut registry = Registry::new();
    let t = get_type::<Looper>(&mut registry);
    assert_eq!(t, TypeRef::Named("Looper".to_string()));
    let meta = registry.type_by_name("Looper").expect("must be catalogued");
    match meta {
        MetaType::Object { fields, .. } => {
            assert_eq!(fields.len(), 1);
            assert_eq!(fields[0].field_type, TypeRef::Named("Looper".to_string()));
        }
        other => panic!("expected the object entry, got {:?}", other),
    }

    let schema = RootNode::new(Looper, ());
    let (result, errs) =
        execute("{ next { next { __typename } } }", None, &schema, &vec![], &()).expect("must run");
    assert_eq!(errs, []);
    let obj = result.as_object_value().expect("an object");
    assert!(object_field(obj, "next").is_some());
}
