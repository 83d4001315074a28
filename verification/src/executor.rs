//! The executor: the capability trait that schema types implement, the
//! root node, argument handling, and recursive selection-set resolution
//! with error collection and non-null propagation.

use vstd::prelude::*;
use vstd::string::StringExecFns;

use crate::ast::Document;
use crate::ast::Definition;
use crate::ast::Fragment;
use crate::ast::InputValue;
use crate::ast::Selection;
use crate::ast::TypeRef;
use crate::schema::ArgumentMeta;
use crate::schema::FieldMeta;
use crate::schema::MetaType;
use crate::schema::Registry;
use crate::schema::Schema;
use crate::sourcepos::SourcePosition;
use crate::strutil::str_eq;
use crate::value::Value;

verus! {

broadcast use vstd::std_specs::vec::group_vec_axioms;

/// The coerced arguments handed to a field resolver: an ordered
/// name-to-value list.
pub struct Arguments {
    pub pairs: Vec<(String, InputValue)>,
}

/// The value of the first argument named `key`, if any.
pub open spec fn spec_argument_lookup(pairs: Seq<(String, InputValue)>, key: Seq<char>) -> Option<
    InputValue,
>
    decreases pairs,
{
    if pairs.len() == 0 {
        Option::None
    } else if pairs[0].0@ == key {
        Option::Some(pairs[0].1)
    } else {
        spec_argument_lookup(pairs.drop_first(), key)
    }
}

impl Arguments {
    /// An empty argument list.
    pub fn new() -> (r: Arguments)
        ensures
            r.pairs@.len() == 0,
    {
        Arguments { pairs: Vec::new() }
    }

    /// The value of the first argument named `key`, if any.
    pub fn get(&self, key: &str) -> (r: Option<&InputValue>)
        ensures
            match r {
                Option::Some(v) => spec_argument_lookup(self.pairs@, key@) == Option::Some(*v),
                Option::None => spec_argument_lookup(self.pairs@, key@) matches Option::None,
            },
    {
        let mut i: usize = 0;
        proof {
            assert(self.pairs@.skip(0) =~= self.pairs@);
        }
        while i < self.pairs.len()
            invariant
                i <= self.pairs@.len(),
                spec_argument_lookup(self.pairs@, key@) == spec_argument_lookup(
                    self.pairs@.skip(i as int),
                    key@,
                ),
            decreases self.pairs@.len() - i,
        {
            proof {
                assert(self.pairs@.skip(i as int)[0] == self.pairs@[i as int]);
                assert(self.pairs@.skip(i as int).drop_first() =~= self.pairs@.skip(i as int + 1));
            }
            if str_eq(self.pairs[i].0.as_str(), key) {
                return Option::Some(&self.pairs[i].1);
            }
            i = i + 1;
        }
        proof {
            assert(self.pairs@.skip(i as int) =~= Seq::empty());
        }
        Option::None
    }
}

/// What a resolver hands back for one field: a finished value, a child
/// object still to be narrowed by the subselection, a list of children,
/// or an optional child.
pub enum Resolved<T> {
    Value(Value),
    Object(T),
    ObjectList(Vec<T>),
    NullableObject(Option<T>),
}

/// A resolver's verdict on one field.
pub type FieldResult<T> = Result<Resolved<T>, String>;

/// The registration capability of a schema type: its name and the meta
/// entry it catalogues, registering its dependencies along the way.
pub trait GraphQLMetaType {
    /// The type's name, or none for a structural wrapper.
    fn name() -> Option<String>;

    /// Describe the type into the registry and return its meta entry.
    fn meta(registry: &mut Registry) -> MetaType;
}

/// The resolution capability of a schema type: what execution calls for
/// each selected field.
pub trait GraphQLType<C>: Sized {
    /// The concrete runtime type name of this value.
    fn concrete_type_name(&self, context: &C) -> String;

    /// Resolve one field of this value.
    fn resolve_field(&self, context: &C, field_name: &str, arguments: &Arguments) -> FieldResult<
        Self,
    >;
}

impl GraphQLMetaType for () {
    fn name() -> (r: Option<String>) {
        Option::Some("Mutation".to_owned())
    }

    fn meta(registry: &mut Registry) -> (r: MetaType) {
        MetaType::Object {
            name: "Mutation".to_owned(),
            fields: Vec::new(),
            interfaces: Vec::new(),
        }
    }
}

impl<C> GraphQLType<C> for () {
    fn concrete_type_name(&self, context: &C) -> (r: String) {
        "Mutation".to_owned()
    }

    fn resolve_field(&self, context: &C, field_name: &str, arguments: &Arguments) -> (r:
        FieldResult<Self>) {
        Err("Mutation root has no fields".to_owned())
    }
}

/// The catalogued type reference for `T`: registers the type on first
/// use, with a placeholder inserted first so that cyclic type graphs
/// terminate, and yields a reference to it by name. Whatever the type's
/// registration does to the registry, the name the reference carries is
/// catalogued when this returns.
pub fn get_type<T: GraphQLMetaType>(registry: &mut Registry) -> (r: TypeRef)
    ensures
        r matches TypeRef::Named(_),
        r matches TypeRef::Named(n) ==> crate::schema::spec_lookup(final(registry).types@, n@)
            matches Option::Some(_),
{
    let tname = match T::name() {
        Option::Some(n) => n,
        Option::None => {
            let m = T::meta(registry);
            let mn = m.name().to_owned();
            registry.insert(m);
            return TypeRef::Named(mn);
        },
    };
    if !registry.contains(tname.as_str()) {
        registry.insert_placeholder(tname.as_str());
        let m = T::meta(registry);
        registry.insert(m);
    }
    registry.insert_placeholder(tname.as_str());
    TypeRef::Named(tname)
}

/// The root of a schema: the root query and mutation values together with
/// the immutable catalog built from their registrations.
pub struct RootNode<Q, M> {
    pub query: Q,
    pub mutation: M,
    pub schema: Schema,
}

impl<Q: GraphQLMetaType, M: GraphQLMetaType> RootNode<Q, M> {
    /// Build a root node: registers the built-in scalars, then the query
    /// and mutation types and everything reachable from them. Whatever
    /// the two registrations catalogue, the five built-in scalar names
    /// stay catalogued, and the given roots are kept.
    pub fn new(query: Q, mutation: M) -> (r: RootNode<Q, M>)
        ensures
            r.query == query,
            r.mutation == mutation,
            crate::schema::spec_lookup(r.schema.types@, "Int"@) matches Option::Some(_),
            crate::schema::spec_lookup(r.schema.types@, "Float"@) matches Option::Some(_),
            crate::schema::spec_lookup(r.schema.types@, "String"@) matches Option::Some(_),
            crate::schema::spec_lookup(r.schema.types@, "Boolean"@) matches Option::Some(_),
            crate::schema::spec_lookup(r.schema.types@, "ID"@) matches Option::Some(_),
    {
        let mut registry = Registry::new();
        let q_meta = Q::meta(&mut registry);
        let query_type_name = match Q::name() {
            Option::Some(n) => n,
            Option::None => "Query".to_owned(),
        };
        registry.insert(q_meta);
        let m_meta = M::meta(&mut registry);
        let mutation_type_name = match M::name() {
            Option::Some(n) => Option::Some(n),
            Option::None => Option::None,
        };
        registry.insert(m_meta);
        registry.ensure_scalar("Int");
        registry.ensure_scalar("Float");
        registry.ensure_scalar("String");
        registry.ensure_scalar("Boolean");
        registry.ensure_scalar("ID");
        proof {
            reveal_strlit("Int");
            reveal_strlit("Float");
            reveal_strlit("String");
            reveal_strlit("Boolean");
            reveal_strlit("ID");
            assert("Int"@.len() == 3 && "Float"@.len() == 5 && "String"@.len() == 6
                && "Boolean"@.len() == 7 && "ID"@.len() == 2);
        }
        let schema = Schema { types: registry.types, query_type_name, mutation_type_name };
        RootNode { query, mutation, schema }
    }
}

/// One failure during resolution: the message, the response-key path from
/// the root to the failing field, and the field's source position.
#[derive(PartialEq, Eq, Debug)]
pub struct ExecutionError {
    pub message: String,
    pub path: Vec<String>,
    pub location: SourcePosition,
}

/// No two fields of an output object share a key.
pub open spec fn unique_keys(fields: Seq<(String, Value)>) -> bool {
    forall|i: int, j: int| 0 <= i < j < fields.len() ==> fields[i].0@ != fields[j].0@
}

/// The first fragment definition called `name`, if any.
pub open spec fn spec_find_fragment(defs: Seq<Definition>, name: Seq<char>) -> Option<Fragment>
    decreases defs,
{
    if defs.len() == 0 {
        Option::None
    } else {
        match defs[0] {
            Definition::Fragment(f) => if f.item.name.item@ == name {
                Option::Some(f.item)
            } else {
                spec_find_fragment(defs.drop_first(), name)
            },
            Definition::Operation(_) => spec_find_fragment(defs.drop_first(), name),
        }
    }
}

/// The named fragment definition called `name`, if the document has one.
pub fn find_fragment<'a>(doc: &'a Document, name: &str) -> (r: Option<&'a Fragment>)
    ensures
        match r {
            Option::Some(f) => spec_find_fragment(doc@, name@) == Option::Some(*f),
            Option::None => spec_find_fragment(doc@, name@) matches Option::None,
        },
{
    let mut i: usize = 0;
    proof {
        assert(doc@.skip(0) =~= doc@);
    }
    while i < doc.len()
        invariant
            i <= doc@.len(),
            spec_find_fragment(doc@, name@) == spec_find_fragment(doc@.skip(i as int), name@),
        decreases doc@.len() - i,
    {
        proof {
            assert(doc@.skip(i as int)[0] == doc@[i as int]);
            assert(doc@.skip(i as int).drop_first() =~= doc@.skip(i as int + 1));
        }
        match &doc[i] {
            Definition::Fragment(f) => {
                if str_eq(f.item.name.item.as_str(), name) {
                    return Option::Some(&f.item);
                }
            },
            _ => {},
        }
        i = i + 1;
    }
    proof {
        assert(doc@.skip(i as int) =~= Seq::<Definition>::empty());
    }
    Option::None
}

/// Whether a fragment whose condition names `cond` applies to a value of
/// concrete type `concrete`: the names are equal, the concrete object
/// implements the interface, or the union lists the concrete type.
pub open spec fn spec_condition_applies(
    types: Seq<(String, MetaType)>,
    cond: Seq<char>,
    concrete: Seq<char>,
) -> bool {
    ||| cond == concrete
    ||| (match crate::schema::spec_lookup(types, concrete) {
        Option::Some(MetaType::Object { interfaces, .. }) => crate::coercion::spec_contains_string(
            interfaces@,
            cond,
        ),
        _ => false,
    })
    ||| (match crate::schema::spec_lookup(types, cond) {
        Option::Some(MetaType::Union { types: members, .. }) => crate::coercion::spec_contains_string(
            members@,
            concrete,
        ),
        _ => false,
    })
}

/// Whether a fragment whose condition names `cond` applies to a value of
/// concrete type `concrete`.
fn condition_applies(schema: &Schema, cond: &str, concrete: &str) -> (r: bool)
    ensures
        r == spec_condition_applies(schema.types@, cond@, concrete@),
{
    if str_eq(cond, concrete) {
        return true;
    }
    match schema.type_by_name(concrete) {
        Option::Some(MetaType::Object { interfaces, .. }) => {
            if crate::coercion::contains_string(interfaces, cond) {
                return true;
            }
        },
        _ => {},
    }
    match schema.type_by_name(cond) {
        Option::Some(MetaType::Union { types: members, .. }) => {
            crate::coercion::contains_string(members, concrete)
        },
        _ => false,
    }
}

/// The field declaration named `name` in a field list, if any.
pub open spec fn spec_field_by_name(fields: Seq<FieldMeta>, name: Seq<char>) -> Option<FieldMeta>
    decreases fields,
{
    if fields.len() == 0 {
        Option::None
    } else if fields[0].name@ == name {
        Option::Some(fields[0])
    } else {
        spec_field_by_name(fields.drop_first(), name)
    }
}

/// The field declaration named `fname` on the type called `tname`, if the
/// catalog has that type and it declares the field.
pub open spec fn spec_field_of(
    types: Seq<(String, MetaType)>,
    tname: Seq<char>,
    fname: Seq<char>,
) -> Option<FieldMeta> {
    match crate::schema::spec_lookup(types, tname) {
        Option::Some(MetaType::Object { fields, .. }) => spec_field_by_name(fields@, fname),
        Option::Some(MetaType::Interface { fields, .. }) => spec_field_by_name(fields@, fname),
        _ => Option::None,
    }
}

/// The field declaration named `name` in a declared field list, if any.
pub fn field_by_name_in<'a>(fields: &'a Vec<FieldMeta>, name: &str) -> (r: Option<&'a FieldMeta>)
    ensures
        match r {
            Option::Some(m) => spec_field_by_name(fields@, name@) == Option::Some(*m),
            Option::None => spec_field_by_name(fields@, name@) matches Option::None,
        },
{
    let mut i: usize = 0;
    proof {
        assert(fields@.skip(0) =~= fields@);
    }
    while i < fields.len()
        invariant
            i <= fields@.len(),
            spec_field_by_name(fields@, name@) == spec_field_by_name(
                fields@.skip(i as int),
                name@,
            ),
        decreases fields@.len() - i,
    {
        proof {
            assert(fields@.skip(i as int)[0] == fields@[i as int]);
            assert(fields@.skip(i as int).drop_first() =~= fields@.skip(i as int + 1));
        }
        if str_eq(fields[i].name.as_str(), name) {
            return Option::Some(&fields[i]);
        }
        i = i + 1;
    }
    proof {
        assert(fields@.skip(i as int) =~= Seq::empty());
    }
    Option::None
}

/// The field declaration named `name` on the type called `tname`, if the
/// catalog knows one.
pub fn field_meta_of<'a>(schema: &'a Schema, tname: &str, name: &str) -> (r: Option<&'a FieldMeta>)
    ensures
        match r {
            Option::Some(m) => spec_field_of(schema.types@, tname@, name@) == Option::Some(*m),
            Option::None => spec_field_of(schema.types@, tname@, name@) matches Option::None,
        },
{
    match schema.type_by_name(tname) {
        Option::Some(m) => match m {
            MetaType::Object { fields, .. } => field_by_name_in(fields, name),
            MetaType::Interface { fields, .. } => field_by_name_in(fields, name),
            _ => Option::None,
        },
        Option::None => Option::None,
    }
}

/// The supplied value of variable `name`, if one was supplied.
pub fn variable_value<'a>(variables: &'a Vec<(String, InputValue)>, name: &str) -> (r: Option<
    &'a InputValue,
>)
    ensures
        match r {
            Option::Some(v) => spec_argument_lookup(variables@, name@) == Option::Some(*v),
            Option::None => spec_argument_lookup(variables@, name@) matches Option::None,
        },
{
    let mut i: usize = 0;
    proof {
        assert(variables@.skip(0) =~= variables@);
    }
    while i < variables.len()
        invariant
            i <= variables@.len(),
            spec_argument_lookup(variables@, name@) == spec_argument_lookup(
                variables@.skip(i as int),
                name@,
            ),
        decreases variables@.len() - i,
    {
        proof {
            assert(variables@.skip(i as int)[0] == variables@[i as int]);
            assert(variables@.skip(i as int).drop_first() =~= variables@.skip(i as int + 1));
        }
        if str_eq(variables[i].0.as_str(), name) {
            return Option::Some(&variables[i].1);
        }
        i = i + 1;
    }
    proof {
        assert(variables@.skip(i as int) =~= Seq::empty());
    }
    Option::None
}

/// The models of the coerced variable map of an operation: one entry
/// per declared variable, in declaration order — the supplied value in
/// its coerced normal form where one was supplied and coerces, else the
/// declared default, else no entry. (A supplied value that does not
/// coerce never reaches execution: the variable-value pass fails first.)
pub open spec fn spec_coerced_variables(
    types: Seq<(String, MetaType)>,
    defs: Seq<(crate::sourcepos::Spanning<String>, crate::ast::VariableDefinition)>,
    supplied: Seq<(String, InputValue)>,
) -> Seq<(Seq<char>, crate::ast::InputValueV)>
    decreases defs,
{
    if defs.len() == 0 {
        Seq::empty()
    } else {
        (match spec_argument_lookup(supplied, defs[0].0.item@) {
            Option::Some(v) => match crate::coercion::spec_coerce(
                types,
                defs[0].1.var_type.item,
                v,
            ) {
                crate::coercion::CoerceOutcome::Coerced(w) => seq![(defs[0].0.item@, w)],
                crate::coercion::CoerceOutcome::Failed(_) => Seq::empty(),
            },
            Option::None => match defs[0].1.default_value {
                Option::Some(d) => seq![
                    (defs[0].0.item@, crate::ast::input_value_model(d.item)),
                ],
                Option::None => Seq::empty(),
            },
        }) + spec_coerced_variables(types, defs.drop_first(), supplied)
    }
}

/// The variable map handed to resolution: each declared variable takes
/// its supplied entry coerced to the declared type, else its declared
/// default, else no entry (see `spec_coerced_variables`).
#[verifier::loop_isolation(false)]
pub fn coerce_variable_values(
    types: &Vec<(String, MetaType)>,
    defs: &Vec<(crate::sourcepos::Spanning<String>, crate::ast::VariableDefinition)>,
    supplied: &Vec<(String, InputValue)>,
) -> (r: Vec<(String, InputValue)>)
    ensures
        arguments_model(r@) == spec_coerced_variables(types@, defs@, supplied@),
{
    let mut vars: Vec<(String, InputValue)> = Vec::new();
    let mut vi: usize = 0;
    proof {
        assert(defs@.skip(0) =~= defs@);
        assert(arguments_model(vars@) + spec_coerced_variables(
            types@,
            defs@.skip(0),
            supplied@,
        ) =~= spec_coerced_variables(types@, defs@, supplied@)) by {
            assert(arguments_model(vars@) =~= Seq::<(Seq<char>, crate::ast::InputValueV)>::empty());
        }
    }
    while vi < defs.len()
        invariant
            vi <= defs@.len(),
            arguments_model(vars@) + spec_coerced_variables(
                types@,
                defs@.skip(vi as int),
                supplied@,
            ) =~= spec_coerced_variables(types@, defs@, supplied@),
        decreases defs@.len() - vi,
    {
        proof {
            assert(defs@.skip(vi as int)[0] == defs@[vi as int]);
            assert(defs@.skip(vi as int).drop_first() =~= defs@.skip(vi as int + 1));
        }
        let ghost vars0 = vars@;
        let vd = &defs[vi];
        match variable_value(supplied, vd.0.item.as_str()) {
            Option::Some(v) => {
                match crate::coercion::coerce_value(types, &vd.1.var_type.item, v) {
                    Ok(w) => {
                        vars.push((vd.0.item.clone(), w));
                    },
                    Err(_) => {},
                }
            },
            Option::None => {
                match &vd.1.default_value {
                    Option::Some(d) => {
                        vars.push((vd.0.item.clone(), d.item.duplicate()));
                    },
                    Option::None => {},
                }
            },
        }
        proof {
            assert(arguments_model(vars@) =~= arguments_model(vars0) + (arguments_model(
                vars@,
            ).skip(vars0.len() as int)));
        }
        vi = vi + 1;
        proof {
            assert(arguments_model(vars@) + spec_coerced_variables(
                types@,
                defs@.skip(vi as int),
                supplied@,
            ) =~= spec_coerced_variables(types@, defs@, supplied@));
        }
    }
    proof {
        assert(defs@.skip(vi as int) =~= Seq::<
            (crate::sourcepos::Spanning<String>, crate::ast::VariableDefinition),
        >::empty());
        assert(arguments_model(vars@) =~= spec_coerced_variables(types@, defs@, supplied@));
    }
    vars
}

/// Whether the output object already has a field under `key`.
fn has_response_key(out: &Vec<(String, Value)>, key: &str) -> (r: bool)
    ensures
        r == exists|i: int| 0 <= i < out@.len() && out@[i].0@ == key@,
{
    let mut i: usize = 0;
    while i < out.len()
        invariant
            i <= out@.len(),
            forall|j: int| 0 <= j < i as int ==> out@[j].0@ != key@,
        decreases out@.len() - i,
    {
        if str_eq(out[i].0.as_str(), key) {
            return true;
        }
        i = i + 1;
    }
    false
}

/// The value written for argument `name`, if one is written: the first
/// occurrence wins.
pub open spec fn spec_written_value(
    written: Seq<(crate::sourcepos::Spanning<String>, crate::sourcepos::Spanning<InputValue>)>,
    name: Seq<char>,
) -> Option<InputValue>
    decreases written,
{
    if written.len() == 0 {
        Option::None
    } else if written[0].0.item@ == name {
        Option::Some(written[0].1.item)
    } else {
        spec_written_value(written.drop_first(), name)
    }
}

/// The model of an argument value after variable substitution: a
/// variable reference takes the supplied variable's value, or null when
/// none was supplied; anything else stands as written.
pub open spec fn spec_substituted(
    variables: Seq<(String, InputValue)>,
    v: InputValue,
) -> crate::ast::InputValueV {
    match v {
        InputValue::Variable(name) => match spec_argument_lookup(variables, name@) {
            Option::Some(supplied) => crate::ast::input_value_model(supplied),
            Option::None => crate::ast::InputValueV::Null,
        },
        _ => crate::ast::input_value_model(v),
    }
}

/// The models of the coerced arguments of one field: one entry per
/// declared argument, in declaration order — the written value after
/// variable substitution, else the declared default, else no entry.
pub open spec fn spec_collect_arguments(
    decl: Seq<ArgumentMeta>,
    written: Seq<(crate::sourcepos::Spanning<String>, crate::sourcepos::Spanning<InputValue>)>,
    variables: Seq<(String, InputValue)>,
) -> Seq<(Seq<char>, crate::ast::InputValueV)>
    decreases decl,
{
    if decl.len() == 0 {
        Seq::empty()
    } else {
        (match spec_written_value(written, decl[0].name@) {
            Option::Some(v) => seq![(decl[0].name@, spec_substituted(variables, v))],
            Option::None => match decl[0].default_value {
                Option::Some(d) => seq![(decl[0].name@, crate::ast::input_value_model(d))],
                Option::None => Seq::empty(),
            },
        }) + spec_collect_arguments(decl.drop_first(), written, variables)
    }
}

/// The models of an argument list, in order.
pub open spec fn arguments_model(pairs: Seq<(String, InputValue)>) -> Seq<
    (Seq<char>, crate::ast::InputValueV),
> {
    pairs.map_values(|p: (String, InputValue)| (p.0@, crate::ast::input_value_model(p.1)))
}

/// The value written for argument `name`, if one is written.
pub fn written_value<'a>(
    written: &'a Vec<(crate::sourcepos::Spanning<String>, crate::sourcepos::Spanning<InputValue>)>,
    name: &str,
) -> (r: Option<&'a InputValue>)
    ensures
        match r {
            Option::Some(v) => spec_written_value(written@, name@) == Option::Some(*v),
            Option::None => spec_written_value(written@, name@) matches Option::None,
        },
{
    let mut j: usize = 0;
    proof {
        assert(written@.skip(0) =~= written@);
    }
    while j < written.len()
        invariant
            j <= written@.len(),
            spec_written_value(written@, name@) == spec_written_value(
                written@.skip(j as int),
                name@,
            ),
        decreases written@.len() - j,
    {
        proof {
            assert(written@.skip(j as int)[0] == written@[j as int]);
            assert(written@.skip(j as int).drop_first() =~= written@.skip(j as int + 1));
        }
        if str_eq(written[j].0.item.as_str(), name) {
            return Option::Some(&written[j].1.item);
        }
        j = j + 1;
    }
    proof {
        assert(written@.skip(j as int) =~= Seq::empty());
    }
    Option::None
}

/// The coerced arguments of one selected field: each declared argument
/// takes the written literal (a variable reference takes the supplied
/// variable's value), or its declared default where nothing is written.
#[verifier::loop_isolation(false)]
fn collect_arguments(
    field_meta: &FieldMeta,
    written: &Vec<(crate::sourcepos::Spanning<String>, crate::sourcepos::Spanning<InputValue>)>,
    variables: &Vec<(String, InputValue)>,
) -> (r: Arguments)
    ensures
        arguments_model(r.pairs@) == spec_collect_arguments(
            field_meta.arguments@,
            written@,
            variables@,
        ),
{
    let decl_args = &field_meta.arguments;
    let mut pairs: Vec<(String, InputValue)> = Vec::new();
    let mut i: usize = 0;
    proof {
        assert(decl_args@.skip(0) =~= decl_args@);
        assert(arguments_model(pairs@) + spec_collect_arguments(
            decl_args@.skip(0),
            written@,
            variables@,
        ) =~= spec_collect_arguments(decl_args@, written@, variables@));
    }
    while i < decl_args.len()
        invariant
            i <= decl_args@.len(),
            arguments_model(pairs@) + spec_collect_arguments(
                decl_args@.skip(i as int),
                written@,
                variables@,
            ) =~= spec_collect_arguments(decl_args@, written@, variables@),
        decreases decl_args@.len() - i,
    {
        proof {
            assert(decl_args@.skip(i as int)[0] == decl_args@[i as int]);
            assert(decl_args@.skip(i as int).drop_first() =~= decl_args@.skip(i as int + 1));
        }
        let ghost pairs0 = pairs@;
        let decl = &decl_args[i];
        match written_value(written, decl.name.as_str()) {
            Option::Some(w) => {
                let v = match w {
                    InputValue::Variable(var) => match variable_value(variables, var.as_str()) {
                        Option::Some(supplied) => supplied.duplicate(),
                        Option::None => InputValue::Null,
                    },
                    other => other.duplicate(),
                };
                proof {
                    assert(crate::ast::input_value_model(v) == spec_substituted(variables@, *w));
                }
                pairs.push((decl.name.clone(), v));
            },
            Option::None => {
                match &decl.default_value {
                    Option::Some(d) => {
                        pairs.push((decl.name.clone(), d.duplicate()));
                    },
                    Option::None => {},
                }
            },
        }
        proof {
            assert(arguments_model(pairs@) =~= arguments_model(pairs0) + (arguments_model(
                pairs@,
            ).skip(pairs0.len() as int)));
        }
        i = i + 1;
        proof {
            assert(arguments_model(pairs@) + spec_collect_arguments(
                decl_args@.skip(i as int),
                written@,
                variables@,
            ) =~= spec_collect_arguments(decl_args@, written@, variables@));
        }
    }
    proof {
        assert(decl_args@.skip(i as int) =~= Seq::<ArgumentMeta>::empty());
        assert(arguments_model(pairs@) =~= spec_collect_arguments(
            decl_args@,
            written@,
            variables@,
        ));
    }
    Arguments { pairs }
}

/// Record one execution error: the given message, located at `location`,
/// under the response-key path `path` extended by `key`.
#[verifier::loop_isolation(false)]
fn push_error(
    errors: &mut Vec<ExecutionError>,
    message: String,
    path: &Vec<String>,
    key: &String,
    location: SourcePosition,
)
    ensures
        final(errors)@ == old(errors)@.push(final(errors)@.last()),
        final(errors)@.len() == old(errors)@.len() + 1,
        final(errors)@.take(old(errors)@.len() as int) == old(errors)@,
        final(errors)@.last().message@ == message@,
        final(errors)@.last().location == location,
        final(errors)@.last().path@ == path@.push(*key),
{
    let mut p: Vec<String> = Vec::new();
    let mut i: usize = 0;
    while i < path.len()
        invariant
            i <= path@.len(),
            p@ == path@.take(i as int),
        decreases path@.len() - i,
    {
        p.push(path[i].clone());
        proof {
            assert(path@.take(i as int).push(path@[i as int]) =~= path@.take(i as int + 1));
        }
        i = i + 1;
    }
    proof {
        assert(path@.take(i as int) =~= path@);
    }
    p.push(key.clone());
    let ghost before = errors@;
    errors.push(ExecutionError { message, path: p, location });
    proof {
        assert(errors@.take(before.len() as int) =~= before);
    }
}

/// Record one execution error at exactly the given response-key path.
#[verifier::loop_isolation(false)]
fn push_error_at(
    errors: &mut Vec<ExecutionError>,
    message: String,
    path: &Vec<String>,
    location: SourcePosition,
)
    ensures
        final(errors)@ == old(errors)@.push(final(errors)@.last()),
        final(errors)@.len() == old(errors)@.len() + 1,
        final(errors)@.take(old(errors)@.len() as int) == old(errors)@,
        final(errors)@.last().message@ == message@,
        final(errors)@.last().location == location,
        final(errors)@.last().path@ == path@,
{
    let mut p: Vec<String> = Vec::new();
    let mut i: usize = 0;
    while i < path.len()
        invariant
            i <= path@.len(),
            p@ == path@.take(i as int),
        decreases path@.len() - i,
    {
        p.push(path[i].clone());
        proof {
            assert(path@.take(i as int).push(path@[i as int]) =~= path@.take(i as int + 1));
        }
        i = i + 1;
    }
    proof {
        assert(path@.take(i as int) =~= path@);
    }
    let ghost before = errors@;
    errors.push(ExecutionError { message, path: p, location });
    proof {
        assert(errors@.take(before.len() as int) =~= before);
    }
}

/// The message `Field "K" of non-null type resolved to null`.
pub open spec fn spec_null_for_non_null_message(key: Seq<char>) -> Seq<char> {
    ("Field \""@ + key) + "\" of non-null type resolved to null"@
}

/// The message `Field "F" not found on type "T"`.
pub open spec fn spec_field_not_found_message(fname: Seq<char>, tname: Seq<char>) -> Seq<char> {
    ((("Field \""@ + fname) + "\" not found on type \""@) + tname) + "\""@
}

/// The message `Field "F" of an object type needs a selection set`.
pub open spec fn spec_needs_selection_message(fname: Seq<char>) -> Seq<char> {
    ("Field \""@ + fname) + "\" of an object type needs a selection set"@
}


/// Whether `k` is among the keys `have`.
pub open spec fn key_in(have: Seq<Seq<char>>, k: Seq<char>) -> bool {
    exists|j: int| 0 <= j < have.len() && have[j] == k
}

/// The keys of an output object's fields, in order.
pub open spec fn keys_of(out: Seq<(String, Value)>) -> Seq<Seq<char>> {
    out.map_values(|p: (String, Value)| p.0@)
}

/// The response keys that resolving a selection list adds to an output
/// object that already has the keys `have`, in traversal order: each
/// selection's keys first, then the rest against the grown key set.
pub open spec fn spec_added_keys(
    types: Seq<(String, MetaType)>,
    defs: Seq<Definition>,
    concrete: Seq<char>,
    sels: Seq<Selection>,
    have: Seq<Seq<char>>,
    fuel: nat,
) -> Seq<Seq<char>>
    decreases fuel, sels, 1int,
{
    if sels.len() == 0 {
        Seq::empty()
    } else {
        let added = spec_added_keys_one(types, defs, concrete, sels[0], have, fuel);
        added + spec_added_keys(types, defs, concrete, sels.drop_first(), have + added, fuel)
    }
}

/// The response keys one selection adds: a field adds its response key
/// (alias else name) unless an earlier occurrence took it — first
/// occurrence wins; a fragment spread expands the named fragment's
/// selections in place when the document has it, its condition applies
/// to the concrete type, and fuel is left; an inline fragment expands in
/// place when its condition (if any) applies.
pub open spec fn spec_added_keys_one(
    types: Seq<(String, MetaType)>,
    defs: Seq<Definition>,
    concrete: Seq<char>,
    sel: Selection,
    have: Seq<Seq<char>>,
    fuel: nat,
) -> Seq<Seq<char>>
    decreases fuel, sel, 0int,
{
    match sel {
        Selection::Field(f) => if key_in(have, f.item.spec_response_key()) {
            Seq::empty()
        } else {
            seq![f.item.spec_response_key()]
        },
        Selection::FragmentSpread(sp) => if fuel == 0 {
            Seq::empty()
        } else {
            match spec_find_fragment(defs, sp.item.name.item@) {
                Option::Some(frag) => if spec_condition_applies(
                    types,
                    frag.type_condition.item@,
                    concrete,
                ) {
                    spec_added_keys(
                        types,
                        defs,
                        concrete,
                        frag.selection_set@,
                        have,
                        (fuel - 1) as nat,
                    )
                } else {
                    Seq::empty()
                },
                Option::None => Seq::empty(),
            }
        },
        Selection::InlineFragment(il) => {
            let applies = match il.item.type_condition {
                Option::Some(c) => spec_condition_applies(types, c.item@, concrete),
                Option::None => true,
            };
            if applies {
                spec_added_keys(types, defs, concrete, il.item.selection_set@, have, fuel)
            } else {
                Seq::empty()
            }
        },
    }
}

/// Resolve every selection of a selection set into the output object,
/// expanding fragments, from position `i` on. Existing entries are kept
/// untouched; on success the keys appended are exactly the response keys
/// of the applying selections, in source order, first occurrence winning
/// on merges. The result is false when a non-null field came out null,
/// which nulls the enclosing object.
#[verifier::loop_isolation(false)]
pub fn fill_selections<C, T: GraphQLType<C>>(
    instance: &T,
    context: &C,
    schema: &Schema,
    doc: &Document,
    concrete: &String,
    sels: &Vec<Selection>,
    i: usize,
    variables: &Vec<(String, InputValue)>,
    path: &Vec<String>,
    out: &mut Vec<(String, Value)>,
    errors: &mut Vec<ExecutionError>,
    fuel: usize,
) -> (ok: bool)
    requires
        i <= sels@.len(),
        unique_keys(old(out)@),
    ensures
        unique_keys(final(out)@),
        old(out)@.len() <= final(out)@.len(),
        final(out)@.take(old(out)@.len() as int) == old(out)@,
        old(errors)@.len() <= final(errors)@.len(),
        final(errors)@.take(old(errors)@.len() as int) == old(errors)@,
        ok ==> keys_of(final(out)@) == keys_of(old(out)@) + spec_added_keys(
            schema.types@,
            doc@,
            concrete@,
            sels@.skip(i as int),
            keys_of(old(out)@),
            fuel as nat,
        ),
    decreases fuel, sels@.skip(i as int), 3int,
{
    if i == sels.len() {
        proof {
            assert(out@.take(out@.len() as int) =~= out@);
            assert(errors@.take(errors@.len() as int) =~= errors@);
            assert(sels@.skip(i as int) =~= Seq::<Selection>::empty());
            assert(keys_of(out@) =~= keys_of(out@) + spec_added_keys(
                schema.types@,
                doc@,
                concrete@,
                sels@.skip(i as int),
                keys_of(out@),
                fuel as nat,
            ));
        }
        return true;
    }
    proof {
        assert(sels@.skip(i as int)[0] == sels@[i as int]);
        assert(decreases_to!(sels@.skip(i as int) => sels@.skip(i as int)[0]));
        assert(sels@.skip(i as int).drop_first() =~= sels@.skip(i as int + 1));
        assert(decreases_to!(sels@.skip(i as int) => sels@.skip(i as int).drop_first()));
    }
    let ghost out0 = out@;
    let ghost err0 = errors@;
    let mut keep_going = true;
    match &sels[i] {
        Selection::Field(f) => {
            proof {
                assert(decreases_to!(sels@.skip(i as int)[0] => *f));
                assert(decreases_to!(*f => f.item));
                assert(decreases_to!(f.item => f.item.selection_set));
            }
            let key = f.item.response_key().to_owned();
            if !has_response_key(out, key.as_str()) {
                proof {
                    assert(!key_in(keys_of(out0), key@)) by {
                        assert(forall|j: int|
                            0 <= j < out0.len() ==> #[trigger] keys_of(out0)[j] == out0[j].0@);
                    }
                }
                if str_eq(f.item.name.item.as_str(), "__typename") {
                    let tn = instance.concrete_type_name(context);
                    out.push((key, Value::Str(tn)));
                } else {
                    keep_going = resolve_one_field(
                        instance,
                        context,
                        schema,
                        doc,
                        concrete,
                        f,
                        key,
                        variables,
                        path,
                        out,
                        errors,
                        fuel,
                    );
                }
                proof {
                    if keep_going {
                        assert(keys_of(out@) =~= keys_of(out0) + seq![
                            f.item.spec_response_key(),
                        ]);
                    }
                }
            } else {
                proof {
                    assert(key_in(keys_of(out0), key@)) by {
                        let j = choose|j: int| 0 <= j < out0.len() && out0[j].0@ == key@;
                        assert(keys_of(out0)[j] == out0[j].0@);
                    }
                    assert(keys_of(out@) =~= keys_of(out0) + Seq::<Seq<char>>::empty());
                }
            }
        },
        Selection::FragmentSpread(spread) => {
            if fuel == 0 {
                push_error(
                    errors,
                    "Maximum fragment nesting exceeded".to_owned(),
                    path,
                    &spread.item.name.item,
                    spread.start,
                );
                proof {
                    assert(keys_of(out@) =~= keys_of(out0) + Seq::<Seq<char>>::empty());
                }
            } else {
                match find_fragment(doc, spread.item.name.item.as_str()) {
                    Option::Some(frag) => {
                        if condition_applies(
                            schema,
                            frag.type_condition.item.as_str(),
                            concrete.as_str(),
                        ) {
                            let fsels = &frag.selection_set;
                            proof {
                                assert(fsels@.skip(0) =~= fsels@);
                            }
                            keep_going = fill_selections(
                                instance,
                                context,
                                schema,
                                doc,
                                concrete,
                                fsels,
                                0,
                                variables,
                                path,
                                out,
                                errors,
                                fuel - 1,
                            );
                        } else {
                            proof {
                                assert(keys_of(out@) =~= keys_of(out0) + Seq::<
                                    Seq<char>,
                                >::empty());
                            }
                        }
                    },
                    Option::None => {
                        proof {
                            assert(keys_of(out@) =~= keys_of(out0) + Seq::<Seq<char>>::empty());
                        }
                    },
                }
            }
        },
        Selection::InlineFragment(il) => {
            let applies = match &il.item.type_condition {
                Option::Some(c) => condition_applies(schema, c.item.as_str(), concrete.as_str()),
                Option::None => true,
            };
            if applies {
                let isels = &il.item.selection_set;
                proof {
                    assert(decreases_to!(sels@.skip(i as int)[0] => *il));
                    assert(decreases_to!(*il => il.item));
                    assert(decreases_to!(il.item => il.item.selection_set));
                    assert(decreases_to!(il.item.selection_set => il.item.selection_set@));
                    assert(il.item.selection_set@.skip(0) =~= il.item.selection_set@);
                }
                keep_going = fill_selections(
                    instance,
                    context,
                    schema,
                    doc,
                    concrete,
                    isels,
                    0,
                    variables,
                    path,
                    out,
                    errors,
                    fuel,
                );
            } else {
                proof {
                    assert(keys_of(out@) =~= keys_of(out0) + Seq::<Seq<char>>::empty());
                }
            }
        },
    }
    proof {
        if keep_going {
            assert(keys_of(out@) =~= keys_of(out0) + spec_added_keys_one(
                schema.types@,
                doc@,
                concrete@,
                sels@[i as int],
                keys_of(out0),
                fuel as nat,
            ));
        }
    }
    if !keep_going {
        proof {
            assert(out@.take(out0.len() as int) =~= out0);
            assert(errors@.take(err0.len() as int) =~= err0);
        }
        return false;
    }
    let ghost mid = out@;
    let r = fill_selections(
        instance,
        context,
        schema,
        doc,
        concrete,
        sels,
        i + 1,
        variables,
        path,
        out,
        errors,
        fuel,
    );
    proof {
        assert(out@.take(out0.len() as int) =~= out0);
        assert(errors@.take(err0.len() as int) =~= err0);
        if r {
            assert(keys_of(out@) =~= keys_of(out0) + spec_added_keys(
                schema.types@,
                doc@,
                concrete@,
                sels@.skip(i as int),
                keys_of(out0),
                fuel as nat,
            ));
        }
    }
    r
}

/// Resolve one plain field selection (the response key is not yet in the
/// output object) and append its entry under `key`. False when a
/// non-null field came out null: the entry is then withheld and the
/// enclosing object is nulled. A field the schema does not declare on the
/// enclosing type yields a null entry and exactly one located error.
#[verifier::loop_isolation(false)]
fn resolve_one_field<C, T: GraphQLType<C>>(
    instance: &T,
    context: &C,
    schema: &Schema,
    doc: &Document,
    concrete: &String,
    f: &crate::sourcepos::Spanning<crate::ast::Field>,
    key: String,
    variables: &Vec<(String, InputValue)>,
    path: &Vec<String>,
    out: &mut Vec<(String, Value)>,
    errors: &mut Vec<ExecutionError>,
    fuel: usize,
) -> (ok: bool)
    requires
        unique_keys(old(out)@),
        forall|j: int| 0 <= j < old(out)@.len() ==> old(out)@[j].0@ != key@,
    ensures
        unique_keys(final(out)@),
        old(out)@.len() <= final(out)@.len(),
        final(out)@.take(old(out)@.len() as int) == old(out)@,
        old(errors)@.len() <= final(errors)@.len(),
        final(errors)@.take(old(errors)@.len() as int) == old(errors)@,
        ok ==> final(out)@ == old(out)@.push(final(out)@.last()) && final(out)@.last().0@ == key@,
        !ok ==> final(out)@ == old(out)@,
        crate::executor::spec_field_of(schema.types@, concrete@, f.item.name.item@)
            matches Option::None ==> ok && final(out)@.last().1 == Value::Null
            && final(errors)@.len() == old(errors)@.len() + 1
            && final(errors)@.last().message@ == spec_field_not_found_message(
            f.item.name.item@,
            concrete@,
        ) && final(errors)@.last().location == f.start,
    decreases fuel, f.item.selection_set, 2int,
{
    let ghost out0 = out@;
    let ghost err0 = errors@;
    let meta = match field_meta_of(schema, concrete.as_str(), f.item.name.item.as_str()) {
        Option::Some(m) => m,
        Option::None => {
            let msg = "Field \"".to_owned().concat(f.item.name.item.as_str()).concat(
                "\" not found on type \"",
            ).concat(concrete.as_str()).concat("\"");
            push_error(errors, msg, path, &key, f.start);
            out.push((key, Value::Null));
            proof {
                assert(out@.take(out0.len() as int) =~= out0);
            }
            return true;
        },
    };
    let non_null = meta.field_type.is_non_null();
    let args = collect_arguments(meta, &f.item.arguments, variables);
    let mut child_path: Vec<String> = Vec::new();
    let mut pi: usize = 0;
    while pi < path.len()
        decreases path@.len() - pi,
    {
        child_path.push(path[pi].clone());
        pi = pi + 1;
    }
    child_path.push(key.clone());
    let outcome = instance.resolve_field(context, f.item.name.item.as_str(), &args);
    let value = complete_value(
        outcome,
        context,
        schema,
        doc,
        f,
        &key,
        non_null,
        path,
        &child_path,
        variables,
        errors,
        fuel,
    );
    match value {
        Option::Some(v) => {
            let is_null = v.is_null();
            if is_null && non_null {
                let msg = "Field \"".to_owned().concat(key.as_str()).concat(
                    "\" of non-null type resolved to null",
                );
                push_error(errors, msg, path, &key, f.start);
                proof {
                    assert(out@.take(out0.len() as int) =~= out0);
                    assert(errors@.take(err0.len() as int) =~= err0);
                }
                false
            } else {
                out.push((key, v));
                proof {
                    assert(out@.take(out0.len() as int) =~= out0);
                    assert(out@ =~= out0.push(out@.last()));
                }
                true
            }
        },
        Option::None => {
            if non_null {
                proof {
                    assert(out@.take(out0.len() as int) =~= out0);
                }
                false
            } else {
                out.push((key, Value::Null));
                proof {
                    assert(out@.take(out0.len() as int) =~= out0);
                    assert(out@ =~= out0.push(out@.last()));
                }
                true
            }
        },
    }
}

/// Turn one resolver outcome into the field's value. A failing resolver
/// records exactly its message at the field's position and yields
/// nothing; a finished value stands as it is, with nothing recorded; an
/// absent optional child yields nothing, with the null-for-non-null
/// error recorded when the field's type is non-null; a child object is
/// narrowed by the field's subselection into an output object; a child
/// list is narrowed element by element, in order. `None` means the
/// position came out null and the caller decides how far the null
/// climbs.
#[verifier::loop_isolation(false)]
pub fn complete_value<C, T: GraphQLType<C>>(
    outcome: FieldResult<T>,
    context: &C,
    schema: &Schema,
    doc: &Document,
    f: &crate::sourcepos::Spanning<crate::ast::Field>,
    key: &String,
    non_null: bool,
    path: &Vec<String>,
    child_path: &Vec<String>,
    variables: &Vec<(String, InputValue)>,
    errors: &mut Vec<ExecutionError>,
    fuel: usize,
) -> (r: Option<Value>)
    ensures
        old(errors)@.len() <= final(errors)@.len(),
        final(errors)@.take(old(errors)@.len() as int) == old(errors)@,
        outcome matches Err(m) ==> (r matches Option::None)
            && final(errors)@.len() == old(errors)@.len() + 1
            && final(errors)@.last().message@ == m@ && final(errors)@.last().location == f.start
            && final(errors)@.last().path@ == path@.push(*key),
        outcome matches Ok(Resolved::Value(v)) ==> r == Option::Some(v)
            && final(errors)@ == old(errors)@,
        (outcome matches Ok(Resolved::NullableObject(c)) && c matches Option::None) ==> (r
            matches Option::None) && (non_null ==> final(errors)@.len() == old(errors)@.len() + 1
            && final(errors)@.last().message@ == spec_null_for_non_null_message(key@)
            && final(errors)@.last().location == f.start && final(errors)@.last().path@
            == path@.push(*key)) && (!non_null ==> final(errors)@ == old(errors)@),
        (outcome matches Ok(Resolved::Object(_)) || outcome matches Ok(
            Resolved::NullableObject(_),
        )) ==> (match r {
            Option::Some(v) => (v matches Value::Object(fields) && unique_keys(fields@)) || (v
                matches Value::Null),
            Option::None => true,
        }),
        outcome matches Ok(Resolved::ObjectList(children)) ==> (match r {
            Option::Some(v) => v matches Value::List(items) && items@.len() == children@.len()
                && (forall|k: int|
                0 <= k < items@.len() ==> ((#[trigger] items@[k]) matches Value::Object(fields)
                    && unique_keys(fields@)) || (items@[k] matches Value::Null)),
            Option::None => true,
        }),
    decreases fuel, f.item.selection_set, 1int,
{
    let ghost err0 = errors@;
    match outcome {
        Err(msg) => {
            push_error(errors, msg, path, key, f.start);
            Option::None
        },
        Ok(Resolved::Value(v)) => Option::Some(v),
        Ok(Resolved::NullableObject(Option::None)) => {
            if non_null {
                let msg = "Field \"".to_owned().concat(key.as_str()).concat(
                    "\" of non-null type resolved to null",
                );
                push_error(errors, msg, path, key, f.start);
            }
            Option::None
        },
        Ok(Resolved::NullableObject(Option::Some(child))) => resolve_child(
            &child,
            context,
            schema,
            doc,
            f,
            child_path,
            variables,
            errors,
            fuel,
        ),
        Ok(Resolved::Object(child)) => resolve_child(
            &child,
            context,
            schema,
            doc,
            f,
            child_path,
            variables,
            errors,
            fuel,
        ),
        Ok(Resolved::ObjectList(children)) => {
            let mut items: Vec<Value> = Vec::new();
            let mut ci: usize = 0;
            let mut nulled = false;
            while ci < children.len()
                invariant
                    ci <= children@.len(),
                    err0.len() <= errors@.len(),
                    errors@.take(err0.len() as int) == err0,
                    !nulled ==> items@.len() == ci as int,
                    forall|k: int|
                        0 <= k < items@.len() ==> ((#[trigger] items@[k]) matches Value::Object(
                            fields,
                        ) && unique_keys(fields@)) || (items@[k] matches Value::Null),
                decreases children@.len() - ci,
            {
                match resolve_child(
                    &children[ci],
                    context,
                    schema,
                    doc,
                    f,
                    child_path,
                    variables,
                    errors,
                    fuel,
                ) {
                    Option::Some(v) => {
                        items.push(v);
                    },
                    Option::None => {
                        nulled = true;
                    },
                }
                proof {
                    assert(errors@.take(err0.len() as int) =~= err0);
                }
                ci = ci + 1;
            }
            if nulled {
                Option::None
            } else {
                Option::Some(Value::List(items))
            }
        },
    }
}

/// Resolve a child object under a field: its subselection narrows it to
/// an output object. A field without a subselection yields an error and
/// null; a nulled-out child yields null here and lets the caller decide
/// how far the null climbs.
#[verifier::loop_isolation(false)]
fn resolve_child<C, T: GraphQLType<C>>(
    child: &T,
    context: &C,
    schema: &Schema,
    doc: &Document,
    f: &crate::sourcepos::Spanning<crate::ast::Field>,
    child_path: &Vec<String>,
    variables: &Vec<(String, InputValue)>,
    errors: &mut Vec<ExecutionError>,
    fuel: usize,
) -> (r: Option<Value>)
    ensures
        old(errors)@.len() <= final(errors)@.len(),
        final(errors)@.take(old(errors)@.len() as int) == old(errors)@,
        r matches Option::Some(v) ==> ((v matches Value::Object(fields) && unique_keys(fields@))
            || (v matches Value::Null)),
        f.item.selection_set matches Option::None ==> r == Option::Some(Value::Null)
            && final(errors)@.len() == old(errors)@.len() + 1
            && final(errors)@.last().message@ == spec_needs_selection_message(f.item.name.item@)
            && final(errors)@.last().location == f.start && final(errors)@.last().path@
            == child_path@,
    decreases fuel, f.item.selection_set, 0int,
{
    let ghost err0 = errors@;
    match &f.item.selection_set {
        Option::Some(ss) => {
            let child_type = child.concrete_type_name(context);
            let mut child_out: Vec<(String, Value)> = Vec::new();
            proof {
                assert(decreases_to!(f.item.selection_set => *ss));
                assert(decreases_to!(*ss => ss@));
                assert(ss@.skip(0) =~= ss@);
            }
            let ok = fill_selections(
                child,
                context,
                schema,
                doc,
                &child_type,
                ss,
                0,
                variables,
                child_path,
                &mut child_out,
                errors,
                fuel,
            );
            if ok {
                Option::Some(Value::Object(child_out))
            } else {
                Option::None
            }
        },
        Option::None => {
            let msg = "Field \"".to_owned().concat(f.item.name.item.as_str()).concat(
                "\" of an object type needs a selection set",
            );
            push_error_at(errors, msg, child_path, f.start);
            Option::Some(Value::Null)
        },
    }
}

} // verus!
