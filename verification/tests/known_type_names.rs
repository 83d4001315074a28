//! The known-type-names rule on its conforming and failing fixtures.

use graphql_core::KnownTypeNames;
use graphql_core::MetaType;
use graphql_core::Registry;
use graphql_core::RuleError;
use graphql_core::Schema;
use graphql_core::SourcePosition;
use graphql_core::ValidatorContext;
use graphql_core::factory;
use graphql_core::parse_document;
use graphql_core::visit_known_type_names;

/// A catalog with the built-in scalars plus the fixture types the valid
/// query refers to.
fn test_schema() -> Schema {
    let mut registry = Registry::new();
    registry.insert(MetaType::Interface {
        name: "Pet".to_string(),
        fields: vec![],
    });
    registry.insert(MetaType::Object {
        name: "QueryRoot".to_string(),
        fields: vec![],
        interfaces: vec![],
    });
    Schema {
        types: registry.types,
        query_type_name: "QueryRoot".to_string(),
        mutation_type_name: None,
    }
}

fn expect_passes_rule<F>(factory_fn: F, q: &str)
where
    F: Fn() -> KnownTypeNames,
{
    let schema = test_schema();
    let doc = parse_document(q).expect("Parse error on test fixture");
    let mut ctx = ValidatorContext::new(&schema);
    let mut rule = factory_fn();
    visit_known_type_names(&mut rule, &mut ctx, &doc);
    assert_eq!(ctx.errors, vec![]);
}

fn expect_fails_rule<F>(factory_fn: F, q: &str, expected: &[RuleError])
where
    F: Fn() -> KnownTypeNames,
{
    let schema = test_schema();
    let doc = parse_document(q).expect("Parse error on test fixture");
    let mut ctx = ValidatorContext::new(&schema);
    let mut rule = factory_fn();
    visit_known_type_names(&mut rule, &mut ctx, &doc);
    assert_eq!(ctx.errors, expected);
}

#[test]
fn known_type_names_are_valid() {
    expect_passes_rule(
        factory,
        r#"
          query Foo($var: String, $required: [String!]!) {
            user(id: 4) {
              pets { ... on Pet { name }, ...PetFields, ... { name } }
            }
          }
          fragment PetFields on Pet {
            name
          }
        "#,
    );
}

#[test]
fn unknown_type_names_are_invalid() {
    expect_fails_rule(
        factory,
        r#"
          query Foo($var: JumbledUpLetters) {
            user(id: 4) {
              name
              pets { ... on Badger { name }, ...PetFields }
            }
          }
          fragment PetFields on Peettt {
            name
          }
        "#,
        &[
            RuleError::new(
                &graphql_core::error_message("JumbledUpLetters"),
                &[SourcePosition::new(27, 1, 26)],
            ),
            RuleError::new(
                &graphql_core::error_message("Badger"),
                &[SourcePosition::new(120, 4, 28)],
            ),
            RuleError::new(
                &graphql_core::error_message("Peettt"),
                &[SourcePosition::new(210, 7, 32)],
            ),
        ],
    );
}
