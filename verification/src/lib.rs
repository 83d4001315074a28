//! Core of a GraphQL server library: the schema model, query parser,
//! validator, and executor that together turn a textual query (with optional
//! variables) against a typed schema into a structured result tree plus a
//! list of execution errors.

use vstd::prelude::*;

mod ast;
mod coercion;
mod executor;
mod laws;
mod lexer;
mod parser;
mod schema;
mod sourcepos;
mod strutil;
mod validation;
mod value;

pub use ast::Definition;
pub use ast::Document;
pub use ast::Field;
pub use ast::Fragment;
pub use ast::FragmentSpread;
pub use ast::InlineFragment;
pub use ast::InputValue;
pub use ast::InputValueV;
pub use ast::Operation;
pub use ast::OperationType;
pub use ast::Selection;
pub use ast::TypeRef;
pub use ast::VariableDefinition;
pub use ast::input_value_model;
pub use ast::wf_definition;
pub use ast::wf_document;
pub use ast::wf_selection;
pub use ast::wf_selections;
pub use coercion::CoerceOutcome;
pub use coercion::coerce_value;
pub use coercion::spec_coerce;
pub use coercion::spec_type_display;
pub use coercion::spec_valid_literal;
pub use coercion::type_display;
pub use coercion::valid_literal;
pub use laws::lemma_coerce_idempotent;
pub use executor::Arguments;
pub use executor::ExecutionError;
pub use executor::FieldResult;
pub use executor::GraphQLMetaType;
pub use executor::GraphQLType;
pub use executor::Resolved;
pub use executor::RootNode;
pub use executor::arguments_model;
pub use executor::coerce_variable_values;
pub use executor::complete_value;
pub use executor::spec_coerced_variables;
pub use executor::spec_null_for_non_null_message;
pub use executor::fill_selections;
pub use executor::key_in;
pub use executor::keys_of;
pub use executor::spec_added_keys;
pub use executor::spec_added_keys_one;
pub use executor::spec_argument_lookup;
pub use executor::spec_collect_arguments;
pub use executor::spec_condition_applies;
pub use executor::spec_field_by_name;
pub use executor::spec_field_not_found_message;
pub use executor::spec_field_of;
pub use executor::spec_find_fragment;
pub use executor::spec_needs_selection_message;
pub use executor::spec_substituted;
pub use executor::spec_written_value;
pub use executor::unique_keys;
pub use executor::get_type;
pub use lexer::LexError;
pub use lexer::Token;
pub use lexer::TokenKind;
pub use lexer::spec_token_wf;
pub use lexer::tokenize;
pub use lexer::wf_tokens;
pub use parser::ParseError;
pub use parser::ParseErrorDetail;
pub use parser::parse_document;
pub use parser::spec_type_end;
pub use parser::wf_at;
pub use schema::ArgumentMeta;
pub use schema::FieldMeta;
pub use schema::MetaType;
pub use schema::Registry;
pub use schema::Schema;
pub use sourcepos::SourcePosition;
pub use sourcepos::Spanning;
pub use sourcepos::SpanningV;
pub use validation::KnownTypeNames;
pub use validation::RuleError;
pub use validation::RuleErrorV;
pub use validation::ValidatorContext;
pub use validation::error_message;
pub use validation::factory;
pub use validation::rule_errors_model;
pub use validation::spec_args_document;
pub use validation::spec_ktn_document;
pub use validation::spec_var_errors_document;
pub use validation::spec_lone_anon_errors;
pub use validation::spec_operation_count;
pub use validation::spec_unique_ops_errors;
pub use validation::spec_input_type_errors_document;
pub use validation::spec_is_input_type;
pub use validation::spec_kfn_document;
pub use validation::spec_arg_names_document;
pub use validation::spec_unique_args_document;
pub use validation::validate_unique_argument_names;
pub use validation::spec_fields_document;
pub use validation::validate_argument_names;
pub use validation::spec_is_meta_field;
pub use validation::spec_leaf_document;
pub use validation::validate_fields_on_correct_type;
pub use validation::validate_selection_shapes;
pub use validation::spec_unique_frags_errors;
pub use validation::validate_unique_fragment_names;
pub use validation::validate_variables_are_input_types;
pub use validation::unknown_fragment_message;
pub use validation::validate_argument_values;
pub use validation::validate_known_fragment_names;
pub use validation::validate_lone_anonymous_operation;
pub use validation::validate_unique_operation_names;
pub use validation::validate_variable_values;
pub use validation::visit_known_type_names;
pub use value::Value;
pub use value::object_field;
pub use value::object_lookup;

verus! {

broadcast use vstd::std_specs::vec::group_vec_axioms;

/// The variables supplied alongside a query: an ordered name-to-value
/// list.
pub type Variables = Vec<(String, InputValue)>;

/// Why a request produced no data at all: the query did not parse, a
/// validation rule failed, or no single operation could be chosen.
#[derive(PartialEq, Eq, Debug)]
pub enum GraphQLError {
    ParseError(ParseError),
    ValidationError(Vec<RuleError>),
    NoOperationProvided,
    MultipleOperationsProvided,
    UnknownOperationName,
}

/// Whether some operation of the document bears the name `n`.
pub open spec fn spec_has_operation_named(defs: Seq<Definition>, n: Seq<char>) -> bool
    decreases defs,
{
    if defs.len() == 0 {
        false
    } else {
        (match defs[0] {
            Definition::Operation(op) => match op.item.name {
                Option::Some(sn) => sn.item@ == n,
                Option::None => false,
            },
            Definition::Fragment(_) => false,
        }) || spec_has_operation_named(defs.drop_first(), n)
    }
}

/// The first operation of the document, if it has one.
pub open spec fn spec_first_operation(defs: Seq<Definition>) -> Option<Spanning<Operation>>
    decreases defs,
{
    if defs.len() == 0 {
        Option::None
    } else {
        match defs[0] {
            Definition::Operation(op) => Option::Some(op),
            Definition::Fragment(_) => spec_first_operation(defs.drop_first()),
        }
    }
}

/// The first operation of the document named `n`, if any.
pub open spec fn spec_first_operation_named(defs: Seq<Definition>, n: Seq<char>) -> Option<
    Spanning<Operation>,
>
    decreases defs,
{
    if defs.len() == 0 {
        Option::None
    } else {
        match defs[0] {
            Definition::Operation(op) => match op.item.name {
                Option::Some(sn) => if sn.item@ == n {
                    Option::Some(op)
                } else {
                    spec_first_operation_named(defs.drop_first(), n)
                },
                Option::None => spec_first_operation_named(defs.drop_first(), n),
            },
            Definition::Fragment(_) => spec_first_operation_named(defs.drop_first(), n),
        }
    }
}

/// The operation the given operation name selects: the first of that
/// name, or the document's single operation when no name is given.
pub open spec fn spec_selected_operation(
    defs: Seq<Definition>,
    operation_name: Option<&str>,
) -> Option<Spanning<Operation>> {
    match operation_name {
        Option::Some(n) => spec_first_operation_named(defs, n@),
        Option::None => spec_first_operation(defs),
    }
}

/// The concrete type name an operation is resolved against: the root
/// mutation type for a mutation (falling back to the query type when
/// none is registered), else the root query type.
pub open spec fn spec_root_type_name(schema: Schema, op: Operation) -> Seq<char> {
    if (op.operation_type matches OperationType::Mutation) {
        match schema.mutation_type_name {
            Option::Some(m) => m@,
            Option::None => schema.query_type_name@,
        }
    } else {
        schema.query_type_name@
    }
}

/// The validation errors of a document against a schema and the supplied
/// variables: the twelve passes' errors, in pass order — known type
/// names, known fragment names, unique fragment names, unique operation
/// names, lone anonymous operation, variables are input types, fields on
/// correct type, argument names and required arguments, unique argument
/// names, selection shapes, argument values, variable values.
pub open spec fn spec_validation_errors(
    schema: Schema,
    defs: Seq<Definition>,
    variables: Seq<(String, InputValue)>,
) -> Seq<RuleErrorV> {
    ((((((((((spec_ktn_document(schema.types@, defs) + validation::spec_kfn_document(defs, defs))
        + validation::spec_unique_frags_errors(defs, Seq::empty())) + spec_unique_ops_errors(
        defs,
        Seq::empty(),
    )) + spec_lone_anon_errors(defs, spec_operation_count(defs) > 1))
        + validation::spec_input_type_errors_document(schema.types@, defs))
        + validation::spec_fields_document(schema, defs))
        + validation::spec_arg_names_document(schema, defs))
        + validation::spec_unique_args_document(defs)) + validation::spec_leaf_document(
        schema,
        defs,
    )) + spec_args_document(schema, defs)) + spec_var_errors_document(
        schema.types@,
        variables,
        defs,
    )
}

/// Turn a parsed document into a result tree: run the validation rules
/// and the variable checks, pick the operation, and resolve its selection
/// set against the root. The contract pins every non-resolution outcome:
/// a validation failure carries exactly the twelve passes' errors, in pass
/// order, and comes exactly when some pass fails; each operation-
/// selection error comes exactly on its own condition; otherwise the
/// result's keys are exactly the selected operation's response keys, or
/// the result is null when a non-null root field came out null.
#[verifier::loop_isolation(false)]
pub fn execute_validated<C, Q: GraphQLType<C>, M: GraphQLType<C>>(
    doc: &Document,
    operation_name: Option<&str>,
    root: &RootNode<Q, M>,
    variables: &Variables,
    context: &C,
) -> (r: Result<(Value, Vec<ExecutionError>), GraphQLError>)
    ensures
        !(r matches Err(GraphQLError::ParseError(_))),
        (r matches Err(GraphQLError::ValidationError(_))) <==> spec_validation_errors(
            root.schema,
            doc@,
            variables@,
        ).len() > 0,
        r matches Err(GraphQLError::ValidationError(es)) ==> rule_errors_model(es@)
            == spec_validation_errors(root.schema, doc@, variables@),
        (r matches Err(GraphQLError::NoOperationProvided)) <==> spec_validation_errors(
            root.schema,
            doc@,
            variables@,
        ).len() == 0 && (operation_name matches Option::None) && spec_operation_count(doc@) == 0,
        (r matches Err(GraphQLError::MultipleOperationsProvided)) <==> spec_validation_errors(
            root.schema,
            doc@,
            variables@,
        ).len() == 0 && (operation_name matches Option::None) && spec_operation_count(doc@) > 1,
        (r matches Err(GraphQLError::UnknownOperationName)) <==> spec_validation_errors(
            root.schema,
            doc@,
            variables@,
        ).len() == 0 && (match operation_name {
            Option::Some(n) => !spec_has_operation_named(doc@, n@),
            Option::None => false,
        }),
        r matches Ok(p) ==> match p.0 {
            Value::Object(fields) => unique_keys(fields@) && (match spec_selected_operation(
                doc@,
                operation_name,
            ) {
                Option::Some(op) => executor::keys_of(fields@) == executor::spec_added_keys(
                    root.schema.types@,
                    doc@,
                    spec_root_type_name(root.schema, op.item),
                    op.item.selection_set@,
                    Seq::empty(),
                    doc@.len() as nat,
                ),
                Option::None => false,
            }),
            _ => p.0 matches Value::Null,
        },
{
    let mut ctx = ValidatorContext::new(&root.schema);
    let mut rule = factory();
    visit_known_type_names(&mut rule, &mut ctx, doc);
    validation::validate_known_fragment_names(&mut ctx, doc);
    validation::validate_unique_fragment_names(&mut ctx, doc);
    validate_unique_operation_names(&mut ctx, doc);
    validate_lone_anonymous_operation(&mut ctx, doc);
    validation::validate_variables_are_input_types(&mut ctx, doc);
    validation::validate_fields_on_correct_type(&mut ctx, doc);
    validation::validate_argument_names(&mut ctx, doc);
    validation::validate_unique_argument_names(&mut ctx, doc);
    validation::validate_selection_shapes(&mut ctx, doc);
    validate_argument_values(&mut ctx, doc);
    validate_variable_values(&mut ctx, doc, variables);
    proof {
        assert(rule_errors_model(ctx.errors@) =~= spec_validation_errors(
            root.schema,
            doc@,
            variables@,
        ));
    }
    if ctx.errors.len() > 0 {
        return Err(GraphQLError::ValidationError(ctx.errors));
    }
    let mut op: Option<&Spanning<Operation>> = Option::None;
    let ghost mut seen: int = 0;
    let mut i: usize = 0;
    proof {
        assert(doc@.skip(0) =~= doc@);
    }
    while i < doc.len()
        invariant
            i <= doc@.len(),
            0 <= seen,
            spec_operation_count(doc@) == seen + spec_operation_count(doc@.skip(i as int)),
            operation_name matches Option::None ==> seen <= 1 && ((op matches Option::Some(_))
                <==> seen == 1),
            operation_name matches Option::Some(n) ==> (spec_has_operation_named(doc@, n@) == ((
            op matches Option::Some(_)) || spec_has_operation_named(doc@.skip(i as int), n@))),
            match op {
                Option::Some(o) => spec_selected_operation(doc@, operation_name)
                    == Option::Some(*o),
                Option::None => spec_selected_operation(doc@, operation_name)
                    == spec_selected_operation(doc@.skip(i as int), operation_name),
            },
        decreases doc@.len() - i,
    {
        proof {
            assert(doc@.skip(i as int)[0] == doc@[i as int]);
            assert(doc@.skip(i as int).drop_first() =~= doc@.skip(i as int + 1));
        }
        match &doc[i] {
            Definition::Operation(o) => {
                proof {
                    seen = seen + 1;
                }
                match operation_name {
                    Option::Some(wanted) => {
                        let name_matches = match &o.item.name {
                            Option::Some(n) => crate::strutil::str_eq(n.item.as_str(), wanted),
                            Option::None => false,
                        };
                        let still_unset = match op {
                            Option::Some(_) => false,
                            Option::None => true,
                        };
                        if name_matches && still_unset {
                            op = Option::Some(o);
                        }
                    },
                    Option::None => {
                        match op {
                            Option::Some(_) => {
                                proof {
                                    lemma_operation_count_non_negative(doc@.skip(i as int + 1));
                                }
                                return Err(GraphQLError::MultipleOperationsProvided);
                            },
                            Option::None => {
                                op = Option::Some(o);
                            },
                        }
                    },
                }
            },
            Definition::Fragment(_) => {},
        }
        i = i + 1;
    }
    proof {
        assert(doc@.skip(i as int) =~= Seq::<Definition>::empty());
    }
    let op = match op {
        Option::Some(o) => o,
        Option::None => {
            match operation_name {
                Option::Some(_) => {
                    return Err(GraphQLError::UnknownOperationName);
                },
                Option::None => {
                    return Err(GraphQLError::NoOperationProvided);
                },
            }
        },
    };
    let exec_vars: Variables = executor::coerce_variable_values(
        &root.schema.types,
        &op.item.variable_definitions,
        variables,
    );
    let mut errors: Vec<ExecutionError> = Vec::new();
    let mut out: Vec<(String, Value)> = Vec::new();
    let path: Vec<String> = Vec::new();
    let fuel = doc.len();
    let is_mutation = match op.item.operation_type {
        OperationType::Mutation => true,
        OperationType::Query => false,
    };
    proof {
        assert(op.item.selection_set@.skip(0) =~= op.item.selection_set@);
    }
    let ok = if is_mutation {
        let concrete = match &root.schema.mutation_type_name {
            Option::Some(m) => m.clone(),
            Option::None => root.schema.query_type_name.clone(),
        };
        fill_selections(
            &root.mutation,
            context,
            &root.schema,
            doc,
            &concrete,
            &op.item.selection_set,
            0,
            &exec_vars,
            &path,
            &mut out,
            &mut errors,
            fuel,
        )
    } else {
        let concrete = root.schema.query_type_name.clone();
        fill_selections(
            &root.query,
            context,
            &root.schema,
            doc,
            &concrete,
            &op.item.selection_set,
            0,
            &exec_vars,
            &path,
            &mut out,
            &mut errors,
            fuel,
        )
    };
    proof {
        if ok {
            assert(executor::keys_of(Seq::<(String, Value)>::empty()) =~= Seq::<
                Seq<char>,
            >::empty());
            assert(executor::keys_of(out@) =~= executor::spec_added_keys(
                root.schema.types@,
                doc@,
                spec_root_type_name(root.schema, op.item),
                op.item.selection_set@,
                Seq::empty(),
                doc@.len() as nat,
            ));
        }
    }
    if ok {
        Ok((Value::Object(out), errors))
    } else {
        Ok((Value::Null, errors))
    }
}

/// A definition list holds no negative number of operations.
proof fn lemma_operation_count_non_negative(defs: Seq<Definition>)
    ensures
        spec_operation_count(defs) >= 0,
    decreases defs,
{
    if defs.len() > 0 {
        lemma_operation_count_non_negative(defs.drop_first());
    }
}

/// Turn a query into a result tree: parse it, then run `execute_validated`
/// on the parsed document, whose contract pins every validation and
/// operation-selection outcome exactly. What this wrapper can add about
/// the text itself is bounded by the parser's contract: the document
/// behind an outcome is existentially bound here, well formed, and
/// related to the outcome exactly as `execute_validated` states.
#[verifier::loop_isolation(false)]
pub fn execute<C, Q: GraphQLType<C> + GraphQLMetaType, M: GraphQLType<C> + GraphQLMetaType>(
    query: &str,
    operation_name: Option<&str>,
    root: &RootNode<Q, M>,
    variables: &Variables,
    context: &C,
) -> (r: Result<(Value, Vec<ExecutionError>), GraphQLError>)
    ensures
        r matches Err(GraphQLError::ValidationError(es)) ==> es@.len() >= 1 && exists|
            d: Seq<Definition>,
        |
            wf_document(d) && rule_errors_model(es@) == spec_validation_errors(
                root.schema,
                d,
                variables@,
            ),
        r matches Err(GraphQLError::NoOperationProvided) ==> (operation_name
            matches Option::None) && exists|d: Seq<Definition>|
            wf_document(d) && spec_validation_errors(root.schema, d, variables@).len() == 0
                && spec_operation_count(d) == 0,
        r matches Err(GraphQLError::MultipleOperationsProvided) ==> (operation_name
            matches Option::None) && exists|d: Seq<Definition>|
            wf_document(d) && spec_validation_errors(root.schema, d, variables@).len() == 0
                && spec_operation_count(d) > 1,
        r matches Err(GraphQLError::UnknownOperationName) ==> match operation_name {
            Option::Some(n) => exists|d: Seq<Definition>|
                wf_document(d) && spec_validation_errors(root.schema, d, variables@).len() == 0
                    && !spec_has_operation_named(d, n@),
            Option::None => false,
        },
        r matches Ok(p) ==> match p.0 {
            Value::Object(fields) => unique_keys(fields@),
            _ => p.0 matches Value::Null,
        },
{
    let doc = match parse_document(query) {
        Ok(d) => d,
        Err(e) => {
            return Err(GraphQLError::ParseError(e));
        },
    };
    let r = execute_validated(&doc, operation_name, root, variables, context);
    proof {
        assert(wf_document(doc@));
        match &r {
            Err(GraphQLError::ValidationError(es)) => {
                assert(rule_errors_model(es@) == spec_validation_errors(
                    root.schema,
                    doc@,
                    variables@,
                ));
                assert(es@.len() == rule_errors_model(es@).len());
            },
            _ => {},
        }
    }
    r
}

} // verus!
