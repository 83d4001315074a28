//! The validator: rule errors, the shared validation context, and the
//! rules run over a parsed document against the schema.

use vstd::prelude::*;
use vstd::string::StringExecFns;

use crate::ast::Definition;
use crate::ast::Document;
use crate::ast::InlineFragment;
use crate::ast::Fragment;
use crate::ast::Selection;
use crate::ast::VariableDefinition;
use crate::schema::MetaType;
use crate::schema::Schema;
use crate::schema::spec_lookup;
use crate::sourcepos::SourcePosition;
use crate::sourcepos::Spanning;

verus! {

broadcast use vstd::std_specs::vec::group_vec_axioms;

/// One validation failure: a stable message and the source positions it
/// points at.
#[derive(PartialEq, Eq, Debug)]
pub struct RuleError {
    pub message: String,
    pub locations: Vec<SourcePosition>,
}

/// The mathematical model of a rule error.
pub struct RuleErrorV {
    pub message: Seq<char>,
    pub locations: Seq<SourcePosition>,
}

impl View for RuleError {
    type V = RuleErrorV;

    open spec fn view(&self) -> RuleErrorV {
        RuleErrorV { message: self.message@, locations: self.locations@ }
    }
}

/// The models of a list of rule errors, in order.
pub open spec fn rule_errors_model(s: Seq<RuleError>) -> Seq<RuleErrorV> {
    s.map_values(|e: RuleError| e@)
}

impl RuleError {
    /// Build an error from its message and positions.
    pub fn new(message: &str, locations: &[SourcePosition]) -> (r: RuleError)
        ensures
            r@.message == message@,
            r@.locations == locations@,
    {
        let mut locs: Vec<SourcePosition> = Vec::new();
        let mut i: usize = 0;
        while i < locations.len()
            invariant
                i <= locations@.len(),
                locs@ == locations@.take(i as int),
            decreases locations@.len() - i,
        {
            locs.push(locations[i]);
            proof {
                assert(locations@.take(i as int).push(locations@[i as int]) =~= locations@.take(
                    i as int + 1,
                ));
            }
            i = i + 1;
        }
        proof {
            assert(locations@.take(i as int) =~= locations@);
        }
        RuleError { message: message.to_owned(), locations: locs }
    }
}

/// The state every rule shares while a document is validated: the schema
/// and the errors collected so far.
pub struct ValidatorContext<'a> {
    pub schema: &'a Schema,
    pub errors: Vec<RuleError>,
}

impl<'a> ValidatorContext<'a> {
    /// A fresh context over `schema`, with no errors yet.
    pub fn new(schema: &'a Schema) -> (r: ValidatorContext<'a>)
        ensures
            r.schema == schema,
            r.errors@.len() == 0,
    {
        ValidatorContext { schema, errors: Vec::new() }
    }

    /// Record one located error.
    pub fn report_error(&mut self, message: &str, locations: &[SourcePosition])
        ensures
            final(self).schema == old(self).schema,
            final(self).errors@.len() == old(self).errors@.len() + 1,
            final(self).errors@ == old(self).errors@.push(final(self).errors@.last()),
            final(self).errors@.last()@.message == message@,
            final(self).errors@.last()@.locations == locations@,
    {
        let e = RuleError::new(message, locations);
        self.errors.push(e);
    }
}

/// The message `Unknown type "N"`.
pub open spec fn spec_unknown_type_message(n: Seq<char>) -> Seq<char> {
    ("Unknown type \""@ + n) + "\""@
}

/// The message `Unknown type "N"`.
pub fn error_message(tname: &str) -> (r: String)
    ensures
        r@ == spec_unknown_type_message(tname@),
{
    "Unknown type \"".to_owned().concat(tname).concat("\"")
}

/// The unknown-type errors for one referenced name: one error exactly
/// when the name is not catalogued.
pub open spec fn spec_ktn_check(
    types: Seq<(String, MetaType)>,
    name: Seq<char>,
    pos: SourcePosition,
) -> Seq<RuleErrorV> {
    if spec_lookup(types, name) matches Option::Some(_) {
        Seq::empty()
    } else {
        seq![RuleErrorV { message: spec_unknown_type_message(name), locations: seq![pos] }]
    }
}

/// The unknown-type errors of one selection, in traversal order.
pub open spec fn spec_ktn_sel(types: Seq<(String, MetaType)>, sel: Selection) -> Seq<RuleErrorV>
    decreases sel, 1int,
{
    match sel {
        Selection::Field(f) => match f.item.selection_set {
            Option::Some(ss) => spec_ktn_sels(types, ss@),
            Option::None => Seq::empty(),
        },
        Selection::FragmentSpread(_) => Seq::empty(),
        Selection::InlineFragment(il) => spec_ktn_inline_own(types, il.item) + spec_ktn_sels(
            types,
            il.item.selection_set@,
        ),
    }
}

/// The unknown-type error an inline fragment itself contributes: its type
/// condition, if it has one and the name is not catalogued.
pub open spec fn spec_ktn_inline_own(
    types: Seq<(String, MetaType)>,
    il: InlineFragment,
) -> Seq<RuleErrorV> {
    match il.type_condition {
        Option::Some(c) => spec_ktn_check(types, c.item@, c.start),
        Option::None => Seq::empty(),
    }
}

/// The unknown-type errors of a selection list, in order.
pub open spec fn spec_ktn_sels(types: Seq<(String, MetaType)>, sels: Seq<Selection>) -> Seq<
    RuleErrorV,
>
    decreases sels, 0int,
{
    if sels.len() == 0 {
        Seq::empty()
    } else {
        spec_ktn_sel(types, sels[0]) + spec_ktn_sels(types, sels.drop_first())
    }
}

/// The unknown-type errors of an operation's variable definitions: each
/// declared type's innermost name, checked in order.
pub open spec fn spec_ktn_vardefs(
    types: Seq<(String, MetaType)>,
    defs: Seq<(Spanning<String>, VariableDefinition)>,
) -> Seq<RuleErrorV>
    decreases defs,
{
    if defs.len() == 0 {
        Seq::empty()
    } else {
        spec_ktn_check(
            types,
            defs[0].1.var_type.item.spec_innermost_name(),
            defs[0].1.var_type.start,
        ) + spec_ktn_vardefs(types, defs.drop_first())
    }
}

/// The unknown-type errors of one definition: an operation checks its
/// variable definitions and then its selections; a fragment checks its
/// type condition and then its selections.
pub open spec fn spec_ktn_def(types: Seq<(String, MetaType)>, d: Definition) -> Seq<RuleErrorV> {
    match d {
        Definition::Operation(op) => spec_ktn_vardefs(types, op.item.variable_definitions@)
            + spec_ktn_sels(types, op.item.selection_set@),
        Definition::Fragment(f) => spec_ktn_check(
            types,
            f.item.type_condition.item@,
            f.item.type_condition.start,
        ) + spec_ktn_sels(types, f.item.selection_set@),
    }
}

/// The unknown-type errors of a whole document, in order.
pub open spec fn spec_ktn_document(types: Seq<(String, MetaType)>, defs: Seq<Definition>) -> Seq<
    RuleErrorV,
>
    decreases defs,
{
    if defs.len() == 0 {
        Seq::empty()
    } else {
        spec_ktn_def(types, defs[0]) + spec_ktn_document(types, defs.drop_first())
    }
}

/// The rule that every type name a document refers to — in fragment type
/// conditions and variable declarations — is catalogued in the schema.
pub struct KnownTypeNames {}

/// Build the known-type-names rule.
pub fn factory() -> (r: KnownTypeNames)
    ensures
        r == (KnownTypeNames {  }),
{
    KnownTypeNames {  }
}

impl KnownTypeNames {
    /// Check an inline fragment's type condition, if it has one.
    pub fn enter_inline_fragment(
        &mut self,
        ctx: &mut ValidatorContext<'_>,
        fragment: &Spanning<InlineFragment>,
    )
        ensures
            final(ctx).schema == old(ctx).schema,
            rule_errors_model(final(ctx).errors@) == rule_errors_model(old(ctx).errors@)
                + spec_ktn_inline_own(old(ctx).schema.types@, fragment.item),
    {
        match &fragment.item.type_condition {
            Option::Some(type_cond) => {
                validate_type(ctx, type_cond.item.as_str(), &type_cond.start);
            },
            Option::None => {
                proof {
                    assert(rule_errors_model(ctx.errors@) =~= rule_errors_model(ctx.errors@)
                        + Seq::<RuleErrorV>::empty());
                }
            },
        }
    }

    /// Check a fragment definition's type condition.
    pub fn enter_fragment_definition(
        &mut self,
        ctx: &mut ValidatorContext<'_>,
        fragment: &Spanning<Fragment>,
    )
        ensures
            final(ctx).schema == old(ctx).schema,
            rule_errors_model(final(ctx).errors@) == rule_errors_model(old(ctx).errors@)
                + spec_ktn_check(
                old(ctx).schema.types@,
                fragment.item.type_condition.item@,
                fragment.item.type_condition.start,
            ),
    {
        let type_cond = &fragment.item.type_condition;
        validate_type(ctx, type_cond.item.as_str(), &type_cond.start);
    }

    /// Check the innermost name of a variable declaration's type.
    pub fn enter_variable_definition(
        &mut self,
        ctx: &mut ValidatorContext<'_>,
        def: &(Spanning<String>, VariableDefinition),
    )
        ensures
            final(ctx).schema == old(ctx).schema,
            rule_errors_model(final(ctx).errors@) == rule_errors_model(old(ctx).errors@)
                + spec_ktn_check(
                old(ctx).schema.types@,
                def.1.var_type.item.spec_innermost_name(),
                def.1.var_type.start,
            ),
    {
        let var_def = &def.1;
        let tname = var_def.var_type.item.innermost_name();
        validate_type(ctx, tname, &var_def.var_type.start);
    }
}

/// Report `Unknown type "N"` at `location` when `tname` is not
/// catalogued.
fn validate_type(ctx: &mut ValidatorContext<'_>, tname: &str, location: &SourcePosition)
    ensures
        final(ctx).schema == old(ctx).schema,
        rule_errors_model(final(ctx).errors@) == rule_errors_model(old(ctx).errors@)
            + spec_ktn_check(old(ctx).schema.types@, tname@, *location),
{
    let missing = match ctx.schema.type_by_name(tname) {
        Option::Some(_) => false,
        Option::None => true,
    };
    if missing {
        let msg = error_message(tname);
        let mut locs: Vec<SourcePosition> = Vec::new();
        locs.push(*location);
        ctx.report_error(msg.as_str(), locs.as_slice());
        proof {
            assert(rule_errors_model(ctx.errors@) =~= rule_errors_model(old(ctx).errors@)
                + spec_ktn_check(old(ctx).schema.types@, tname@, *location));
        }
    } else {
        proof {
            assert(rule_errors_model(ctx.errors@) =~= rule_errors_model(old(ctx).errors@)
                + Seq::<RuleErrorV>::empty());
        }
    }
}

/// Walk a selection list from position `i` on, applying the rule's hooks.
fn ktn_walk_sels(
    rule: &mut KnownTypeNames,
    ctx: &mut ValidatorContext<'_>,
    sels: &Vec<Selection>,
    i: usize,
)
    requires
        i <= sels@.len(),
    ensures
        final(ctx).schema == old(ctx).schema,
        rule_errors_model(final(ctx).errors@) == rule_errors_model(old(ctx).errors@)
            + spec_ktn_sels(old(ctx).schema.types@, sels@.skip(i as int)),
    decreases sels@.skip(i as int), 0int,
{
    if i == sels.len() {
        proof {
            assert(sels@.skip(i as int) =~= Seq::<Selection>::empty());
            assert(rule_errors_model(ctx.errors@) =~= rule_errors_model(ctx.errors@) + Seq::<
                RuleErrorV,
            >::empty());
        }
        return ;
    }
    proof {
        assert(sels@.skip(i as int)[0] == sels@[i as int]);
        assert(decreases_to!(sels@.skip(i as int) => sels@.skip(i as int)[0]));
        assert(sels@.skip(i as int).drop_first() =~= sels@.skip(i as int + 1));
        assert(decreases_to!(sels@.skip(i as int) => sels@.skip(i as int).drop_first()));
    }
    let ghost e0 = rule_errors_model(ctx.errors@);
    match &sels[i] {
        Selection::Field(f) => {
            match &f.item.selection_set {
                Option::Some(ss) => {
                    proof {
                        assert(decreases_to!(sels@.skip(i as int)[0] => *f));
                        assert(decreases_to!(*f => f.item));
                        assert(decreases_to!(f.item => f.item.selection_set));
                        assert(decreases_to!(f.item.selection_set => *ss));
                        assert(decreases_to!(*ss => ss@));
                        assert(ss@.skip(0) =~= ss@);
                    }
                    ktn_walk_sels(rule, ctx, ss, 0);
                },
                Option::None => {
                    proof {
                        assert(rule_errors_model(ctx.errors@) =~= rule_errors_model(ctx.errors@)
                            + Seq::<RuleErrorV>::empty());
                    }
                },
            }
        },
        Selection::FragmentSpread(_) => {
            proof {
                assert(rule_errors_model(ctx.errors@) =~= rule_errors_model(ctx.errors@) + Seq::<
                    RuleErrorV,
                >::empty());
            }
        },
        Selection::InlineFragment(il) => {
            rule.enter_inline_fragment(ctx, il);
            let ss = &il.item.selection_set;
            proof {
                assert(decreases_to!(sels@.skip(i as int)[0] => *il));
                assert(decreases_to!(*il => il.item));
                assert(decreases_to!(il.item => il.item.selection_set));
                assert(decreases_to!(il.item.selection_set => il.item.selection_set@));
                assert(il.item.selection_set@.skip(0) =~= il.item.selection_set@);
            }
            ktn_walk_sels(rule, ctx, ss, 0);
            proof {
                assert(rule_errors_model(ctx.errors@) =~= e0 + spec_ktn_sel(
                    ctx.schema.types@,
                    sels@[i as int],
                ));
            }
        },
    }
    proof {
        assert(rule_errors_model(ctx.errors@) =~= e0 + spec_ktn_sel(
            ctx.schema.types@,
            sels@[i as int],
        ));
    }
    ktn_walk_sels(rule, ctx, sels, i + 1);
    proof {
        assert(rule_errors_model(ctx.errors@) =~= rule_errors_model(old(ctx).errors@)
            + spec_ktn_sels(old(ctx).schema.types@, sels@.skip(i as int)));
    }
}

/// Walk an operation's variable definitions from position `i` on.
fn ktn_walk_vardefs(
    rule: &mut KnownTypeNames,
    ctx: &mut ValidatorContext<'_>,
    defs: &Vec<(Spanning<String>, VariableDefinition)>,
    i: usize,
)
    requires
        i <= defs@.len(),
    ensures
        final(ctx).schema == old(ctx).schema,
        rule_errors_model(final(ctx).errors@) == rule_errors_model(old(ctx).errors@)
            + spec_ktn_vardefs(old(ctx).schema.types@, defs@.skip(i as int)),
    decreases defs@.len() - i,
{
    if i == defs.len() {
        proof {
            assert(defs@.skip(i as int) =~= Seq::<(Spanning<String>, VariableDefinition)>::empty());
            assert(rule_errors_model(ctx.errors@) =~= rule_errors_model(ctx.errors@) + Seq::<
                RuleErrorV,
            >::empty());
        }
        return ;
    }
    proof {
        assert(defs@.skip(i as int)[0] == defs@[i as int]);
        assert(defs@.skip(i as int).drop_first() =~= defs@.skip(i as int + 1));
    }
    rule.enter_variable_definition(ctx, &defs[i]);
    ktn_walk_vardefs(rule, ctx, defs, i + 1);
    proof {
        assert(rule_errors_model(ctx.errors@) =~= rule_errors_model(old(ctx).errors@)
            + spec_ktn_vardefs(old(ctx).schema.types@, defs@.skip(i as int)));
    }
}

/// Run the known-type-names rule over a whole document: its errors, in
/// traversal order, land in the context.
#[verifier::loop_isolation(false)]
pub fn visit_known_type_names(
    rule: &mut KnownTypeNames,
    ctx: &mut ValidatorContext<'_>,
    doc: &Document,
)
    ensures
        final(ctx).schema == old(ctx).schema,
        rule_errors_model(final(ctx).errors@) == rule_errors_model(old(ctx).errors@)
            + spec_ktn_document(old(ctx).schema.types@, doc@),
{
    let mut i: usize = 0;
    proof {
        assert(doc@.skip(0) =~= doc@);
    }
    let ghost e0 = rule_errors_model(ctx.errors@);
    while i < doc.len()
        invariant
            i <= doc@.len(),
            ctx.schema == old(ctx).schema,
            rule_errors_model(ctx.errors@) + spec_ktn_document(ctx.schema.types@, doc@.skip(i as int))
                =~= e0 + spec_ktn_document(ctx.schema.types@, doc@),
        decreases doc@.len() - i,
    {
        proof {
            assert(doc@.skip(i as int)[0] == doc@[i as int]);
            assert(doc@.skip(i as int).drop_first() =~= doc@.skip(i as int + 1));
        }
        let ghost ei = rule_errors_model(ctx.errors@);
        match &doc[i] {
            Definition::Operation(op) => {
                ktn_walk_vardefs(rule, ctx, &op.item.variable_definitions, 0);
                proof {
                    assert(op.item.variable_definitions@.skip(0)
                        =~= op.item.variable_definitions@);
                    assert(op.item.selection_set@.skip(0) =~= op.item.selection_set@);
                }
                ktn_walk_sels(rule, ctx, &op.item.selection_set, 0);
                proof {
                    assert(rule_errors_model(ctx.errors@) =~= ei + spec_ktn_def(
                        ctx.schema.types@,
                        doc@[i as int],
                    ));
                }
            },
            Definition::Fragment(f) => {
                rule.enter_fragment_definition(ctx, f);
                proof {
                    assert(f.item.selection_set@.skip(0) =~= f.item.selection_set@);
                }
                ktn_walk_sels(rule, ctx, &f.item.selection_set, 0);
                proof {
                    assert(rule_errors_model(ctx.errors@) =~= ei + spec_ktn_def(
                        ctx.schema.types@,
                        doc@[i as int],
                    ));
                }
            },
        }
        i = i + 1;
        proof {
            assert(rule_errors_model(ctx.errors@) + spec_ktn_document(
                ctx.schema.types@,
                doc@.skip(i as int),
            ) =~= e0 + spec_ktn_document(ctx.schema.types@, doc@));
        }
    }
    proof {
        assert(doc@.skip(i as int) =~= Seq::<Definition>::empty());
        assert(rule_errors_model(ctx.errors@) =~= e0 + spec_ktn_document(ctx.schema.types@, doc@));
    }
}


/// The message `Invalid value for argument "N", expected type "T"`.
pub open spec fn spec_invalid_arg_message(name: Seq<char>, display: Seq<char>) -> Seq<char> {
    ((("Invalid value for argument \""@ + name) + "\", expected type \""@) + display) + "\""@
}

/// The message `Invalid value for argument "N", expected type "T"`.
pub fn invalid_arg_message(name: &str, display: &str) -> (r: String)
    ensures
        r@ == spec_invalid_arg_message(name@, display@),
{
    "Invalid value for argument \"".to_owned().concat(name).concat(
        "\", expected type \"",
    ).concat(display).concat("\"")
}

/// The argument-value errors of one written argument against the field's
/// declared arguments: one error exactly when the argument is declared
/// and its literal does not fit the declared type.
pub open spec fn spec_args_one(
    types: Seq<(String, MetaType)>,
    decl: Seq<crate::schema::ArgumentMeta>,
    arg: (Spanning<String>, Spanning<crate::ast::InputValue>),
) -> Seq<RuleErrorV> {
    match crate::coercion::spec_arg_by_name(decl, arg.0.item@) {
        Option::None => Seq::empty(),
        Option::Some(a) => if crate::coercion::spec_valid_literal(types, a.arg_type, arg.1.item) {
            Seq::empty()
        } else {
            seq![
                RuleErrorV {
                    message: spec_invalid_arg_message(
                        arg.0.item@,
                        crate::coercion::spec_type_display(a.arg_type),
                    ),
                    locations: seq![arg.1.start],
                },
            ]
        },
    }
}

/// The argument-value errors of a written argument list, in order.
pub open spec fn spec_args_of_field(
    types: Seq<(String, MetaType)>,
    decl: Seq<crate::schema::ArgumentMeta>,
    written: Seq<(Spanning<String>, Spanning<crate::ast::InputValue>)>,
) -> Seq<RuleErrorV>
    decreases written,
{
    if written.len() == 0 {
        Seq::empty()
    } else {
        spec_args_one(types, decl, written[0]) + spec_args_of_field(
            types,
            decl,
            written.drop_first(),
        )
    }
}

/// The argument-value errors of one selection, resolved against the
/// enclosing type `tname`, in traversal order.
pub open spec fn spec_args_sel(
    types: Seq<(String, MetaType)>,
    tname: Seq<char>,
    sel: Selection,
) -> Seq<RuleErrorV>
    decreases sel, 1int,
{
    match sel {
        Selection::Field(f) => match crate::executor::spec_field_of(types, tname, f.item.name.item@) {
            Option::None => Seq::empty(),
            Option::Some(meta) => spec_args_of_field(types, meta.arguments@, f.item.arguments@) + (
            match f.item.selection_set {
                Option::Some(ss) => spec_args_sels(
                    types,
                    meta.field_type.spec_innermost_name(),
                    ss@,
                ),
                Option::None => Seq::empty(),
            }),
        },
        Selection::FragmentSpread(_) => Seq::empty(),
        Selection::InlineFragment(il) => match il.item.type_condition {
            Option::Some(c) => spec_args_sels(types, c.item@, il.item.selection_set@),
            Option::None => spec_args_sels(types, tname, il.item.selection_set@),
        },
    }
}

/// The argument-value errors of a selection list, in order.
pub open spec fn spec_args_sels(
    types: Seq<(String, MetaType)>,
    tname: Seq<char>,
    sels: Seq<Selection>,
) -> Seq<RuleErrorV>
    decreases sels, 0int,
{
    if sels.len() == 0 {
        Seq::empty()
    } else {
        spec_args_sel(types, tname, sels[0]) + spec_args_sels(types, tname, sels.drop_first())
    }
}

/// The argument-value errors of a whole document: operations start at the
/// root query or mutation type, fragments at their type condition.
pub open spec fn spec_args_document(schema: Schema, defs: Seq<Definition>) -> Seq<RuleErrorV>
    decreases defs,
{
    if defs.len() == 0 {
        Seq::empty()
    } else {
        (match defs[0] {
            Definition::Operation(op) => {
                let root = if (op.item.operation_type matches crate::ast::OperationType::Mutation) {
                    match schema.mutation_type_name {
                        Option::Some(m) => m@,
                        Option::None => schema.query_type_name@,
                    }
                } else {
                    schema.query_type_name@
                };
                spec_args_sels(schema.types@, root, op.item.selection_set@)
            },
            Definition::Fragment(fr) => spec_args_sels(
                schema.types@,
                fr.item.type_condition.item@,
                fr.item.selection_set@,
            ),
        }) + spec_args_document(schema, defs.drop_first())
    }
}

/// Check a written argument list from position `i` on.
#[verifier::loop_isolation(false)]
fn args_check_written(
    ctx: &mut ValidatorContext<'_>,
    decl: &Vec<crate::schema::ArgumentMeta>,
    written: &Vec<(Spanning<String>, Spanning<crate::ast::InputValue>)>,
    i: usize,
)
    requires
        i <= written@.len(),
    ensures
        final(ctx).schema == old(ctx).schema,
        rule_errors_model(final(ctx).errors@) == rule_errors_model(old(ctx).errors@)
            + spec_args_of_field(old(ctx).schema.types@, decl@, written@.skip(i as int)),
    decreases written@.len() - i,
{
    if i == written.len() {
        proof {
            assert(written@.skip(i as int) =~= Seq::<
                (Spanning<String>, Spanning<crate::ast::InputValue>),
            >::empty());
            assert(rule_errors_model(ctx.errors@) =~= rule_errors_model(ctx.errors@) + Seq::<
                RuleErrorV,
            >::empty());
        }
        return ;
    }
    proof {
        assert(written@.skip(i as int)[0] == written@[i as int]);
        assert(written@.skip(i as int).drop_first() =~= written@.skip(i as int + 1));
    }
    let ghost e0 = rule_errors_model(ctx.errors@);
    let arg = &written[i];
    match crate::coercion::arg_by_name(decl, arg.0.item.as_str()) {
        Option::Some(a) => {
            if !crate::coercion::valid_literal(&ctx.schema.types, &a.arg_type, &arg.1.item) {
                let display = crate::coercion::type_display(&a.arg_type);
                let msg = invalid_arg_message(arg.0.item.as_str(), display.as_str());
                let mut locs: Vec<SourcePosition> = Vec::new();
                locs.push(arg.1.start);
                ctx.report_error(msg.as_str(), locs.as_slice());
                proof {
                    assert(rule_errors_model(ctx.errors@) =~= e0 + spec_args_one(
                        ctx.schema.types@,
                        decl@,
                        written@[i as int],
                    ));
                }
            } else {
                proof {
                    assert(rule_errors_model(ctx.errors@) =~= e0 + spec_args_one(
                        ctx.schema.types@,
                        decl@,
                        written@[i as int],
                    ));
                }
            }
        },
        Option::None => {
            proof {
                assert(rule_errors_model(ctx.errors@) =~= e0 + spec_args_one(
                    ctx.schema.types@,
                    decl@,
                    written@[i as int],
                ));
            }
        },
    }
    args_check_written(ctx, decl, written, i + 1);
    proof {
        assert(rule_errors_model(ctx.errors@) =~= rule_errors_model(old(ctx).errors@)
            + spec_args_of_field(old(ctx).schema.types@, decl@, written@.skip(i as int)));
    }
}

/// Walk a selection list from position `i` on under the type `tname`,
/// checking every written argument literal.
#[verifier::loop_isolation(false)]
fn args_walk_sels(ctx: &mut ValidatorContext<'_>, tname: &String, sels: &Vec<Selection>, i: usize)
    requires
        i <= sels@.len(),
    ensures
        final(ctx).schema == old(ctx).schema,
        rule_errors_model(final(ctx).errors@) == rule_errors_model(old(ctx).errors@)
            + spec_args_sels(old(ctx).schema.types@, tname@, sels@.skip(i as int)),
    decreases sels@.skip(i as int), 0int,
{
    if i == sels.len() {
        proof {
            assert(sels@.skip(i as int) =~= Seq::<Selection>::empty());
            assert(rule_errors_model(ctx.errors@) =~= rule_errors_model(ctx.errors@) + Seq::<
                RuleErrorV,
            >::empty());
        }
        return ;
    }
    proof {
        assert(sels@.skip(i as int)[0] == sels@[i as int]);
        assert(decreases_to!(sels@.skip(i as int) => sels@.skip(i as int)[0]));
        assert(sels@.skip(i as int).drop_first() =~= sels@.skip(i as int + 1));
        assert(decreases_to!(sels@.skip(i as int) => sels@.skip(i as int).drop_first()));
    }
    let ghost e0 = rule_errors_model(ctx.errors@);
    match &sels[i] {
        Selection::Field(f) => {
            match crate::executor::field_meta_of(
                ctx.schema,
                tname.as_str(),
                f.item.name.item.as_str(),
            ) {
                Option::Some(meta) => {
                    let decl_args_len = meta.arguments.len();
                    args_check_written(ctx, &meta.arguments, &f.item.arguments, 0);
                    proof {
                        assert(f.item.arguments@.skip(0) =~= f.item.arguments@);
                    }
                    let child_type = meta.field_type.innermost_name().to_owned();
                    match &f.item.selection_set {
                        Option::Some(ss) => {
                            proof {
                                assert(decreases_to!(sels@.skip(i as int)[0] => *f));
                                assert(decreases_to!(*f => f.item));
                                assert(decreases_to!(f.item => f.item.selection_set));
                                assert(decreases_to!(f.item.selection_set => *ss));
                                assert(decreases_to!(*ss => ss@));
                                assert(ss@.skip(0) =~= ss@);
                            }
                            args_walk_sels(ctx, &child_type, ss, 0);
                        },
                        Option::None => {},
                    }
                },
                Option::None => {},
            }
            proof {
                assert(rule_errors_model(ctx.errors@) =~= e0 + spec_args_sel(
                    ctx.schema.types@,
                    tname@,
                    sels@[i as int],
                ));
            }
        },
        Selection::FragmentSpread(_) => {
            proof {
                assert(rule_errors_model(ctx.errors@) =~= e0 + spec_args_sel(
                    ctx.schema.types@,
                    tname@,
                    sels@[i as int],
                ));
            }
        },
        Selection::InlineFragment(il) => {
            let cond_type = match &il.item.type_condition {
                Option::Some(c) => c.item.clone(),
                Option::None => tname.clone(),
            };
            let isels = &il.item.selection_set;
            proof {
                assert(decreases_to!(sels@.skip(i as int)[0] => *il));
                assert(decreases_to!(*il => il.item));
                assert(decreases_to!(il.item => il.item.selection_set));
                assert(decreases_to!(il.item.selection_set => il.item.selection_set@));
                assert(il.item.selection_set@.skip(0) =~= il.item.selection_set@);
            }
            args_walk_sels(ctx, &cond_type, isels, 0);
            proof {
                assert(rule_errors_model(ctx.errors@) =~= e0 + spec_args_sel(
                    ctx.schema.types@,
                    tname@,
                    sels@[i as int],
                ));
            }
        },
    }
    args_walk_sels(ctx, tname, sels, i + 1);
    proof {
        assert(rule_errors_model(ctx.errors@) =~= rule_errors_model(old(ctx).errors@)
            + spec_args_sels(old(ctx).schema.types@, tname@, sels@.skip(i as int)));
    }
}

/// Run the argument-value rule over a whole document: every written
/// argument literal must fit its declared type.
#[verifier::loop_isolation(false)]
pub fn validate_argument_values(ctx: &mut ValidatorContext<'_>, doc: &Document)
    ensures
        final(ctx).schema == old(ctx).schema,
        rule_errors_model(final(ctx).errors@) == rule_errors_model(old(ctx).errors@)
            + spec_args_document(*old(ctx).schema, doc@),
{
    let mut i: usize = 0;
    proof {
        assert(doc@.skip(0) =~= doc@);
    }
    let ghost e0 = rule_errors_model(ctx.errors@);
    while i < doc.len()
        invariant
            i <= doc@.len(),
            ctx.schema == old(ctx).schema,
            rule_errors_model(ctx.errors@) + spec_args_document(*ctx.schema, doc@.skip(i as int))
                =~= e0 + spec_args_document(*ctx.schema, doc@),
        decreases doc@.len() - i,
    {
        proof {
            assert(doc@.skip(i as int)[0] == doc@[i as int]);
            assert(doc@.skip(i as int).drop_first() =~= doc@.skip(i as int + 1));
        }
        let ghost ei = rule_errors_model(ctx.errors@);
        match &doc[i] {
            Definition::Operation(op) => {
                let is_mutation = match op.item.operation_type {
                    crate::ast::OperationType::Mutation => true,
                    crate::ast::OperationType::Query => false,
                };
                let root = if is_mutation {
                    match &ctx.schema.mutation_type_name {
                        Option::Some(m) => m.clone(),
                        Option::None => ctx.schema.query_type_name.clone(),
                    }
                } else {
                    ctx.schema.query_type_name.clone()
                };
                proof {
                    assert(op.item.selection_set@.skip(0) =~= op.item.selection_set@);
                }
                args_walk_sels(ctx, &root, &op.item.selection_set, 0);
            },
            Definition::Fragment(fr) => {
                proof {
                    assert(fr.item.selection_set@.skip(0) =~= fr.item.selection_set@);
                }
                args_walk_sels(ctx, &fr.item.type_condition.item, &fr.item.selection_set, 0);
            },
        }
        i = i + 1;
        proof {
            assert(rule_errors_model(ctx.errors@) + spec_args_document(
                *ctx.schema,
                doc@.skip(i as int),
            ) =~= e0 + spec_args_document(*ctx.schema, doc@));
        }
    }
    proof {
        assert(doc@.skip(i as int) =~= Seq::<Definition>::empty());
        assert(rule_errors_model(ctx.errors@) =~= e0 + spec_args_document(*ctx.schema, doc@));
    }
}


/// The prefix `Variable "$N" got invalid value. ` of a bad-value error.
pub open spec fn spec_var_prefix(name: Seq<char>) -> Seq<char> {
    ("Variable \"$"@ + name) + "\" got invalid value. "@
}

/// The message `Variable "$N" of required type "T" was not provided.`.
pub open spec fn spec_var_missing_message(name: Seq<char>, display: Seq<char>) -> Seq<char> {
    ((("Variable \"$"@ + name) + "\" of required type \""@) + display) + "\" was not provided."@
}

/// The bad-value message for one variable: the prefix plus the coercion
/// detail.
pub fn var_invalid_message(name: &str, detail: &str) -> (r: String)
    ensures
        r@ == spec_var_prefix(name@) + detail@,
{
    "Variable \"$".to_owned().concat(name).concat("\" got invalid value. ").concat(detail)
}

/// The message `Variable "$N" of required type "T" was not provided.`.
pub fn var_missing_message(name: &str, display: &str) -> (r: String)
    ensures
        r@ == spec_var_missing_message(name@, display@),
{
    "Variable \"$".to_owned().concat(name).concat("\" of required type \"").concat(
        display,
    ).concat("\" was not provided.")
}

/// The variable-value errors of one declaration: a supplied value that
/// does not coerce to the declared type yields the coercion detail under
/// the variable's name; a missing value is an error exactly when the type
/// is non-null and no default is declared. Errors point at the `$name`
/// span in the operation header.
pub open spec fn spec_var_errors_one(
    types: Seq<(String, MetaType)>,
    vars: Seq<(String, crate::ast::InputValue)>,
    vd: (Spanning<String>, VariableDefinition),
) -> Seq<RuleErrorV> {
    match crate::executor::spec_argument_lookup(vars, vd.0.item@) {
        Option::Some(v) => match crate::coercion::spec_coerce(types, vd.1.var_type.item, v) {
            crate::coercion::CoerceOutcome::Coerced(_) => Seq::empty(),
            crate::coercion::CoerceOutcome::Failed(detail) => seq![
                RuleErrorV {
                    message: spec_var_prefix(vd.0.item@) + detail,
                    locations: seq![vd.0.start],
                },
            ],
        },
        Option::None => {
            if vd.1.var_type.item.spec_is_non_null() && (vd.1.default_value
                matches Option::None) {
                seq![
                    RuleErrorV {
                        message: spec_var_missing_message(
                            vd.0.item@,
                            crate::coercion::spec_type_display(vd.1.var_type.item),
                        ),
                        locations: seq![vd.0.start],
                    },
                ]
            } else {
                Seq::empty()
            }
        },
    }
}

/// The variable-value errors of a declaration list, in order.
pub open spec fn spec_var_errors_defs(
    types: Seq<(String, MetaType)>,
    vars: Seq<(String, crate::ast::InputValue)>,
    defs: Seq<(Spanning<String>, VariableDefinition)>,
) -> Seq<RuleErrorV>
    decreases defs,
{
    if defs.len() == 0 {
        Seq::empty()
    } else {
        spec_var_errors_one(types, vars, defs[0]) + spec_var_errors_defs(
            types,
            vars,
            defs.drop_first(),
        )
    }
}

/// The variable-value errors of a whole document: every operation's
/// declarations, in order.
pub open spec fn spec_var_errors_document(
    types: Seq<(String, MetaType)>,
    vars: Seq<(String, crate::ast::InputValue)>,
    defs: Seq<Definition>,
) -> Seq<RuleErrorV>
    decreases defs,
{
    if defs.len() == 0 {
        Seq::empty()
    } else {
        (match defs[0] {
            Definition::Operation(op) => spec_var_errors_defs(
                types,
                vars,
                op.item.variable_definitions@,
            ),
            Definition::Fragment(_) => Seq::empty(),
        }) + spec_var_errors_document(types, vars, defs.drop_first())
    }
}

/// Check an operation's variable declarations from position `i` on
/// against the supplied variables.
#[verifier::loop_isolation(false)]
fn vars_check_defs(
    ctx: &mut ValidatorContext<'_>,
    vars: &Vec<(String, crate::ast::InputValue)>,
    defs: &Vec<(Spanning<String>, VariableDefinition)>,
    i: usize,
)
    requires
        i <= defs@.len(),
    ensures
        final(ctx).schema == old(ctx).schema,
        rule_errors_model(final(ctx).errors@) == rule_errors_model(old(ctx).errors@)
            + spec_var_errors_defs(old(ctx).schema.types@, vars@, defs@.skip(i as int)),
    decreases defs@.len() - i,
{
    if i == defs.len() {
        proof {
            assert(defs@.skip(i as int) =~= Seq::<(Spanning<String>, VariableDefinition)>::empty());
            assert(rule_errors_model(ctx.errors@) =~= rule_errors_model(ctx.errors@) + Seq::<
                RuleErrorV,
            >::empty());
        }
        return ;
    }
    proof {
        assert(defs@.skip(i as int)[0] == defs@[i as int]);
        assert(defs@.skip(i as int).drop_first() =~= defs@.skip(i as int + 1));
    }
    let ghost e0 = rule_errors_model(ctx.errors@);
    let vd = &defs[i];
    match crate::executor::variable_value(vars, vd.0.item.as_str()) {
        Option::Some(v) => {
            match crate::coercion::coerce_value(&ctx.schema.types, &vd.1.var_type.item, v) {
                Ok(_) => {
                    proof {
                        assert(rule_errors_model(ctx.errors@) =~= e0 + spec_var_errors_one(
                            ctx.schema.types@,
                            vars@,
                            defs@[i as int],
                        ));
                    }
                },
                Err(detail) => {
                    let msg = var_invalid_message(vd.0.item.as_str(), detail.as_str());
                    let mut locs: Vec<SourcePosition> = Vec::new();
                    locs.push(vd.0.start);
                    ctx.report_error(msg.as_str(), locs.as_slice());
                    proof {
                        assert(rule_errors_model(ctx.errors@) =~= e0 + spec_var_errors_one(
                            ctx.schema.types@,
                            vars@,
                            defs@[i as int],
                        ));
                    }
                },
            }
        },
        Option::None => {
            let missing_default = match &vd.1.default_value {
                Option::Some(_) => false,
                Option::None => true,
            };
            if vd.1.var_type.item.is_non_null() && missing_default {
                let display = crate::coercion::type_display(&vd.1.var_type.item);
                let msg = var_missing_message(vd.0.item.as_str(), display.as_str());
                let mut locs: Vec<SourcePosition> = Vec::new();
                locs.push(vd.0.start);
                ctx.report_error(msg.as_str(), locs.as_slice());
            }
            proof {
                assert(rule_errors_model(ctx.errors@) =~= e0 + spec_var_errors_one(
                    ctx.schema.types@,
                    vars@,
                    defs@[i as int],
                ));
            }
        },
    }
    vars_check_defs(ctx, vars, defs, i + 1);
    proof {
        assert(rule_errors_model(ctx.errors@) =~= rule_errors_model(old(ctx).errors@)
            + spec_var_errors_defs(old(ctx).schema.types@, vars@, defs@.skip(i as int)));
    }
}

/// Check every supplied variable of every operation against its declared
/// type.
#[verifier::loop_isolation(false)]
pub fn validate_variable_values(
    ctx: &mut ValidatorContext<'_>,
    doc: &Document,
    vars: &Vec<(String, crate::ast::InputValue)>,
)
    ensures
        final(ctx).schema == old(ctx).schema,
        rule_errors_model(final(ctx).errors@) == rule_errors_model(old(ctx).errors@)
            + spec_var_errors_document(old(ctx).schema.types@, vars@, doc@),
{
    let mut i: usize = 0;
    proof {
        assert(doc@.skip(0) =~= doc@);
    }
    let ghost e0 = rule_errors_model(ctx.errors@);
    while i < doc.len()
        invariant
            i <= doc@.len(),
            ctx.schema == old(ctx).schema,
            rule_errors_model(ctx.errors@) + spec_var_errors_document(
                ctx.schema.types@,
                vars@,
                doc@.skip(i as int),
            ) =~= e0 + spec_var_errors_document(ctx.schema.types@, vars@, doc@),
        decreases doc@.len() - i,
    {
        proof {
            assert(doc@.skip(i as int)[0] == doc@[i as int]);
            assert(doc@.skip(i as int).drop_first() =~= doc@.skip(i as int + 1));
        }
        match &doc[i] {
            Definition::Operation(op) => {
                proof {
                    assert(op.item.variable_definitions@.skip(0)
                        =~= op.item.variable_definitions@);
                }
                vars_check_defs(ctx, vars, &op.item.variable_definitions, 0);
            },
            Definition::Fragment(_) => {},
        }
        i = i + 1;
        proof {
            assert(rule_errors_model(ctx.errors@) + spec_var_errors_document(
                ctx.schema.types@,
                vars@,
                doc@.skip(i as int),
            ) =~= e0 + spec_var_errors_document(ctx.schema.types@, vars@, doc@));
        }
    }
    proof {
        assert(doc@.skip(i as int) =~= Seq::<Definition>::empty());
        assert(rule_errors_model(ctx.errors@) =~= e0 + spec_var_errors_document(
            ctx.schema.types@,
            vars@,
            doc@,
        ));
    }
}


/// The message `There can only be one operation named "N"`.
pub open spec fn spec_duplicate_operation_message(n: Seq<char>) -> Seq<char> {
    ("There can only be one operation named \""@ + n) + "\""@
}

/// The message `There can only be one operation named "N"`.
pub fn duplicate_operation_message(n: &str) -> (r: String)
    ensures
        r@ == spec_duplicate_operation_message(n@),
{
    "There can only be one operation named \"".to_owned().concat(n).concat("\"")
}

/// Whether some string of `seen` holds the characters `n`.
pub open spec fn spec_seen_contains(seen: Seq<String>, n: Seq<char>) -> bool {
    exists|i: int| 0 <= i < seen.len() && seen[i]@ == n
}

/// The duplicate-operation-name errors of the definitions from one point
/// on, given the operation names seen so far: one error for every named
/// operation whose name was already seen.
pub open spec fn spec_unique_ops_errors(defs: Seq<Definition>, seen: Seq<String>) -> Seq<
    RuleErrorV,
>
    decreases defs,
{
    if defs.len() == 0 {
        Seq::empty()
    } else {
        match defs[0] {
            Definition::Operation(op) => match op.item.name {
                Option::Some(n) => if spec_seen_contains(seen, n.item@) {
                    seq![
                        RuleErrorV {
                            message: spec_duplicate_operation_message(n.item@),
                            locations: seq![n.start],
                        },
                    ] + spec_unique_ops_errors(defs.drop_first(), seen)
                } else {
                    spec_unique_ops_errors(defs.drop_first(), seen.push(n.item))
                },
                Option::None => spec_unique_ops_errors(defs.drop_first(), seen),
            },
            Definition::Fragment(_) => spec_unique_ops_errors(defs.drop_first(), seen),
        }
    }
}

/// Run the unique-operation-names rule: every named operation must bear a
/// name of its own.
#[verifier::loop_isolation(false)]
pub fn validate_unique_operation_names(ctx: &mut ValidatorContext<'_>, doc: &Document)
    ensures
        final(ctx).schema == old(ctx).schema,
        rule_errors_model(final(ctx).errors@) == rule_errors_model(old(ctx).errors@)
            + spec_unique_ops_errors(doc@, Seq::empty()),
{
    let mut seen: Vec<String> = Vec::new();
    let mut i: usize = 0;
    proof {
        assert(doc@.skip(0) =~= doc@);
    }
    let ghost e0 = rule_errors_model(ctx.errors@);
    while i < doc.len()
        invariant
            i <= doc@.len(),
            ctx.schema == old(ctx).schema,
            rule_errors_model(ctx.errors@) + spec_unique_ops_errors(doc@.skip(i as int), seen@)
                =~= e0 + spec_unique_ops_errors(doc@, Seq::empty()),
        decreases doc@.len() - i,
    {
        proof {
            assert(doc@.skip(i as int)[0] == doc@[i as int]);
            assert(doc@.skip(i as int).drop_first() =~= doc@.skip(i as int + 1));
        }
        match &doc[i] {
            Definition::Operation(op) => match &op.item.name {
                Option::Some(n) => {
                    let mut duplicate = false;
                    let mut j: usize = 0;
                    while j < seen.len()
                        invariant
                            j <= seen@.len(),
                            duplicate == exists|k: int|
                                0 <= k < j as int && seen@[k]@ == n.item@,
                        decreases seen@.len() - j,
                    {
                        if crate::strutil::str_eq(seen[j].as_str(), n.item.as_str()) {
                            duplicate = true;
                        }
                        j = j + 1;
                    }
                    if duplicate {
                        let msg = duplicate_operation_message(n.item.as_str());
                        let mut locs: Vec<SourcePosition> = Vec::new();
                        locs.push(n.start);
                        ctx.report_error(msg.as_str(), locs.as_slice());
                    } else {
                        seen.push(n.item.clone());
                    }
                },
                Option::None => {},
            },
            Definition::Fragment(_) => {},
        }
        i = i + 1;
        proof {
            assert(rule_errors_model(ctx.errors@) + spec_unique_ops_errors(
                doc@.skip(i as int),
                seen@,
            ) =~= e0 + spec_unique_ops_errors(doc@, Seq::empty()));
        }
    }
    proof {
        assert(doc@.skip(i as int) =~= Seq::<Definition>::empty());
        assert(rule_errors_model(ctx.errors@) =~= e0 + spec_unique_ops_errors(
            doc@,
            Seq::empty(),
        ));
    }
}

/// The message of the lone-anonymous-operation rule.
pub open spec fn spec_lone_anonymous_message() -> Seq<char> {
    "This anonymous operation must be the only defined operation"@
}

/// How many definitions are operations.
pub open spec fn spec_operation_count(defs: Seq<Definition>) -> int
    decreases defs,
{
    if defs.len() == 0 {
        0
    } else {
        (if defs[0] matches Definition::Operation(_) {
            1int
        } else {
            0int
        }) + spec_operation_count(defs.drop_first())
    }
}

/// The lone-anonymous-operation errors: when the document holds more than
/// one operation, every anonymous one is an error.
pub open spec fn spec_lone_anon_errors(defs: Seq<Definition>, many: bool) -> Seq<RuleErrorV>
    decreases defs,
{
    if defs.len() == 0 {
        Seq::empty()
    } else {
        (match defs[0] {
            Definition::Operation(op) => if many && (op.item.name matches Option::None) {
                seq![
                    RuleErrorV {
                        message: spec_lone_anonymous_message(),
                        locations: seq![op.start],
                    },
                ]
            } else {
                Seq::empty()
            },
            Definition::Fragment(_) => Seq::empty(),
        }) + spec_lone_anon_errors(defs.drop_first(), many)
    }
}

/// Run the lone-anonymous-operation rule: a shorthand operation tolerates
/// no sibling operation.
#[verifier::loop_isolation(false)]
pub fn validate_lone_anonymous_operation(ctx: &mut ValidatorContext<'_>, doc: &Document)
    ensures
        final(ctx).schema == old(ctx).schema,
        rule_errors_model(final(ctx).errors@) == rule_errors_model(old(ctx).errors@)
            + spec_lone_anon_errors(doc@, spec_operation_count(doc@) > 1),
{
    let mut count: usize = 0;
    let mut i: usize = 0;
    proof {
        assert(doc@.skip(0) =~= doc@);
    }
    while i < doc.len()
        invariant
            i <= doc@.len(),
            count as int == spec_operation_count(doc@) - spec_operation_count(
                doc@.skip(i as int),
            ),
            count <= i,
        decreases doc@.len() - i,
    {
        proof {
            assert(doc@.skip(i as int)[0] == doc@[i as int]);
            assert(doc@.skip(i as int).drop_first() =~= doc@.skip(i as int + 1));
        }
        match &doc[i] {
            Definition::Operation(_) => {
                count = count + 1;
            },
            Definition::Fragment(_) => {},
        }
        i = i + 1;
    }
    proof {
        assert(doc@.skip(i as int) =~= Seq::<Definition>::empty());
        assert(count as int == spec_operation_count(doc@));
    }
    let many = count > 1;
    let ghost e0 = rule_errors_model(ctx.errors@);
    let mut k: usize = 0;
    while k < doc.len()
        invariant
            k <= doc@.len(),
            ctx.schema == old(ctx).schema,
            many == (spec_operation_count(doc@) > 1),
            rule_errors_model(ctx.errors@) + spec_lone_anon_errors(doc@.skip(k as int), many)
                =~= e0 + spec_lone_anon_errors(doc@, many),
        decreases doc@.len() - k,
    {
        proof {
            assert(doc@.skip(k as int)[0] == doc@[k as int]);
            assert(doc@.skip(k as int).drop_first() =~= doc@.skip(k as int + 1));
        }
        match &doc[k] {
            Definition::Operation(op) => {
                let anonymous = match &op.item.name {
                    Option::Some(_) => false,
                    Option::None => true,
                };
                if many && anonymous {
                    let mut locs: Vec<SourcePosition> = Vec::new();
                    locs.push(op.start);
                    ctx.report_error(
                        "This anonymous operation must be the only defined operation",
                        locs.as_slice(),
                    );
                }
            },
            Definition::Fragment(_) => {},
        }
        k = k + 1;
        proof {
            assert(rule_errors_model(ctx.errors@) + spec_lone_anon_errors(
                doc@.skip(k as int),
                many,
            ) =~= e0 + spec_lone_anon_errors(doc@, many));
        }
    }
    proof {
        assert(doc@.skip(k as int) =~= Seq::<Definition>::empty());
        assert(rule_errors_model(ctx.errors@) =~= e0 + spec_lone_anon_errors(doc@, many));
    }
}


/// The message `Unknown fragment "N"`.
pub open spec fn spec_unknown_fragment_message(n: Seq<char>) -> Seq<char> {
    ("Unknown fragment \""@ + n) + "\""@
}

/// The message `Unknown fragment "N"`.
pub fn unknown_fragment_message(n: &str) -> (r: String)
    ensures
        r@ == spec_unknown_fragment_message(n@),
{
    "Unknown fragment \"".to_owned().concat(n).concat("\"")
}

/// The unknown-fragment errors for one spread: one error exactly when
/// the document defines no fragment of that name.
pub open spec fn spec_kfn_check(
    defs: Seq<Definition>,
    name: Seq<char>,
    pos: SourcePosition,
) -> Seq<RuleErrorV> {
    if crate::executor::spec_find_fragment(defs, name) matches Option::Some(_) {
        Seq::empty()
    } else {
        seq![RuleErrorV { message: spec_unknown_fragment_message(name), locations: seq![pos] }]
    }
}

/// The unknown-fragment errors of one selection, in traversal order.
pub open spec fn spec_kfn_sel(defs: Seq<Definition>, sel: Selection) -> Seq<RuleErrorV>
    decreases sel, 1int,
{
    match sel {
        Selection::Field(f) => match f.item.selection_set {
            Option::Some(ss) => spec_kfn_sels(defs, ss@),
            Option::None => Seq::empty(),
        },
        Selection::FragmentSpread(sp) => spec_kfn_check(defs, sp.item.name.item@, sp.item.name.start),
        Selection::InlineFragment(il) => spec_kfn_sels(defs, il.item.selection_set@),
    }
}

/// The unknown-fragment errors of a selection list, in order.
pub open spec fn spec_kfn_sels(defs: Seq<Definition>, sels: Seq<Selection>) -> Seq<RuleErrorV>
    decreases sels, 0int,
{
    if sels.len() == 0 {
        Seq::empty()
    } else {
        spec_kfn_sel(defs, sels[0]) + spec_kfn_sels(defs, sels.drop_first())
    }
}

/// The unknown-fragment errors of a whole document, in order: every
/// spread of every operation and fragment body must name a defined
/// fragment.
pub open spec fn spec_kfn_document(defs: Seq<Definition>, rest: Seq<Definition>) -> Seq<
    RuleErrorV,
>
    decreases rest,
{
    if rest.len() == 0 {
        Seq::empty()
    } else {
        (match rest[0] {
            Definition::Operation(op) => spec_kfn_sels(defs, op.item.selection_set@),
            Definition::Fragment(fr) => spec_kfn_sels(defs, fr.item.selection_set@),
        }) + spec_kfn_document(defs, rest.drop_first())
    }
}

/// Walk a selection list from position `i` on, checking every fragment
/// spread against the document's fragment definitions.
#[verifier::loop_isolation(false)]
fn kfn_walk_sels(ctx: &mut ValidatorContext<'_>, doc: &Document, sels: &Vec<Selection>, i: usize)
    requires
        i <= sels@.len(),
    ensures
        final(ctx).schema == old(ctx).schema,
        rule_errors_model(final(ctx).errors@) == rule_errors_model(old(ctx).errors@)
            + spec_kfn_sels(doc@, sels@.skip(i as int)),
    decreases sels@.skip(i as int), 0int,
{
    if i == sels.len() {
        proof {
            assert(sels@.skip(i as int) =~= Seq::<Selection>::empty());
            assert(rule_errors_model(ctx.errors@) =~= rule_errors_model(ctx.errors@) + Seq::<
                RuleErrorV,
            >::empty());
        }
        return ;
    }
    proof {
        assert(sels@.skip(i as int)[0] == sels@[i as int]);
        assert(decreases_to!(sels@.skip(i as int) => sels@.skip(i as int)[0]));
        assert(sels@.skip(i as int).drop_first() =~= sels@.skip(i as int + 1));
        assert(decreases_to!(sels@.skip(i as int) => sels@.skip(i as int).drop_first()));
    }
    let ghost e0 = rule_errors_model(ctx.errors@);
    match &sels[i] {
        Selection::Field(f) => {
            match &f.item.selection_set {
                Option::Some(ss) => {
                    proof {
                        assert(decreases_to!(sels@.skip(i as int)[0] => *f));
                        assert(decreases_to!(*f => f.item));
                        assert(decreases_to!(f.item => f.item.selection_set));
                        assert(decreases_to!(f.item.selection_set => *ss));
                        assert(decreases_to!(*ss => ss@));
                        assert(ss@.skip(0) =~= ss@);
                    }
                    kfn_walk_sels(ctx, doc, ss, 0);
                },
                Option::None => {
                    proof {
                        assert(rule_errors_model(ctx.errors@) =~= rule_errors_model(ctx.errors@)
                            + Seq::<RuleErrorV>::empty());
                    }
                },
            }
        },
        Selection::FragmentSpread(sp) => {
            let known = match crate::executor::find_fragment(doc, sp.item.name.item.as_str()) {
                Option::Some(_) => true,
                Option::None => false,
            };
            if !known {
                let msg = unknown_fragment_message(sp.item.name.item.as_str());
                let mut locs: Vec<SourcePosition> = Vec::new();
                locs.push(sp.item.name.start);
                ctx.report_error(msg.as_str(), locs.as_slice());
            }
            proof {
                assert(rule_errors_model(ctx.errors@) =~= e0 + spec_kfn_sel(
                    doc@,
                    sels@[i as int],
                ));
            }
        },
        Selection::InlineFragment(il) => {
            let isels = &il.item.selection_set;
            proof {
                assert(decreases_to!(sels@.skip(i as int)[0] => *il));
                assert(decreases_to!(*il => il.item));
                assert(decreases_to!(il.item => il.item.selection_set));
                assert(decreases_to!(il.item.selection_set => il.item.selection_set@));
                assert(il.item.selection_set@.skip(0) =~= il.item.selection_set@);
            }
            kfn_walk_sels(ctx, doc, isels, 0);
        },
    }
    proof {
        assert(rule_errors_model(ctx.errors@) =~= e0 + spec_kfn_sel(doc@, sels@[i as int]));
    }
    kfn_walk_sels(ctx, doc, sels, i + 1);
    proof {
        assert(rule_errors_model(ctx.errors@) =~= rule_errors_model(old(ctx).errors@)
            + spec_kfn_sels(doc@, sels@.skip(i as int)));
    }
}

/// Run the known-fragment-names rule: every spread, wherever it stands,
/// must name a fragment the document defines.
#[verifier::loop_isolation(false)]
pub fn validate_known_fragment_names(ctx: &mut ValidatorContext<'_>, doc: &Document)
    ensures
        final(ctx).schema == old(ctx).schema,
        rule_errors_model(final(ctx).errors@) == rule_errors_model(old(ctx).errors@)
            + spec_kfn_document(doc@, doc@),
{
    let mut i: usize = 0;
    proof {
        assert(doc@.skip(0) =~= doc@);
    }
    let ghost e0 = rule_errors_model(ctx.errors@);
    while i < doc.len()
        invariant
            i <= doc@.len(),
            ctx.schema == old(ctx).schema,
            rule_errors_model(ctx.errors@) + spec_kfn_document(doc@, doc@.skip(i as int)) =~= e0
                + spec_kfn_document(doc@, doc@),
        decreases doc@.len() - i,
    {
        proof {
            assert(doc@.skip(i as int)[0] == doc@[i as int]);
            assert(doc@.skip(i as int).drop_first() =~= doc@.skip(i as int + 1));
        }
        match &doc[i] {
            Definition::Operation(op) => {
                proof {
                    assert(op.item.selection_set@.skip(0) =~= op.item.selection_set@);
                }
                kfn_walk_sels(ctx, doc, &op.item.selection_set, 0);
            },
            Definition::Fragment(fr) => {
                proof {
                    assert(fr.item.selection_set@.skip(0) =~= fr.item.selection_set@);
                }
                kfn_walk_sels(ctx, doc, &fr.item.selection_set, 0);
            },
        }
        i = i + 1;
        proof {
            assert(rule_errors_model(ctx.errors@) + spec_kfn_document(
                doc@,
                doc@.skip(i as int),
            ) =~= e0 + spec_kfn_document(doc@, doc@));
        }
    }
    proof {
        assert(doc@.skip(i as int) =~= Seq::<Definition>::empty());
        assert(rule_errors_model(ctx.errors@) =~= e0 + spec_kfn_document(doc@, doc@));
    }
}


/// The message `There can only be one fragment named "N"`.
pub open spec fn spec_duplicate_fragment_message(n: Seq<char>) -> Seq<char> {
    ("There can only be one fragment named \""@ + n) + "\""@
}

/// The message `There can only be one fragment named "N"`.
pub fn duplicate_fragment_message(n: &str) -> (r: String)
    ensures
        r@ == spec_duplicate_fragment_message(n@),
{
    "There can only be one fragment named \"".to_owned().concat(n).concat("\"")
}

/// The duplicate-fragment-name errors of the definitions from one point
/// on, given the fragment names seen so far.
pub open spec fn spec_unique_frags_errors(defs: Seq<Definition>, seen: Seq<String>) -> Seq<
    RuleErrorV,
>
    decreases defs,
{
    if defs.len() == 0 {
        Seq::empty()
    } else {
        match defs[0] {
            Definition::Fragment(fr) => if spec_seen_contains(seen, fr.item.name.item@) {
                seq![
                    RuleErrorV {
                        message: spec_duplicate_fragment_message(fr.item.name.item@),
                        locations: seq![fr.item.name.start],
                    },
                ] + spec_unique_frags_errors(defs.drop_first(), seen)
            } else {
                spec_unique_frags_errors(defs.drop_first(), seen.push(fr.item.name.item))
            },
            Definition::Operation(_) => spec_unique_frags_errors(defs.drop_first(), seen),
        }
    }
}

/// Run the unique-fragment-names rule: every fragment definition must
/// bear a name of its own.
#[verifier::loop_isolation(false)]
pub fn validate_unique_fragment_names(ctx: &mut ValidatorContext<'_>, doc: &Document)
    ensures
        final(ctx).schema == old(ctx).schema,
        rule_errors_model(final(ctx).errors@) == rule_errors_model(old(ctx).errors@)
            + spec_unique_frags_errors(doc@, Seq::empty()),
{
    let mut seen: Vec<String> = Vec::new();
    let mut i: usize = 0;
    proof {
        assert(doc@.skip(0) =~= doc@);
    }
    let ghost e0 = rule_errors_model(ctx.errors@);
    while i < doc.len()
        invariant
            i <= doc@.len(),
            ctx.schema == old(ctx).schema,
            rule_errors_model(ctx.errors@) + spec_unique_frags_errors(doc@.skip(i as int), seen@)
                =~= e0 + spec_unique_frags_errors(doc@, Seq::empty()),
        decreases doc@.len() - i,
    {
        proof {
            assert(doc@.skip(i as int)[0] == doc@[i as int]);
            assert(doc@.skip(i as int).drop_first() =~= doc@.skip(i as int + 1));
        }
        match &doc[i] {
            Definition::Fragment(fr) => {
                let mut duplicate = false;
                let mut j: usize = 0;
                while j < seen.len()
                    invariant
                        j <= seen@.len(),
                        duplicate == exists|k: int|
                            0 <= k < j as int && seen@[k]@ == fr.item.name.item@,
                    decreases seen@.len() - j,
                {
                    if crate::strutil::str_eq(seen[j].as_str(), fr.item.name.item.as_str()) {
                        duplicate = true;
                    }
                    j = j + 1;
                }
                if duplicate {
                    let msg = duplicate_fragment_message(fr.item.name.item.as_str());
                    let mut locs: Vec<SourcePosition> = Vec::new();
                    locs.push(fr.item.name.start);
                    ctx.report_error(msg.as_str(), locs.as_slice());
                } else {
                    seen.push(fr.item.name.item.clone());
                }
            },
            Definition::Operation(_) => {},
        }
        i = i + 1;
        proof {
            assert(rule_errors_model(ctx.errors@) + spec_unique_frags_errors(
                doc@.skip(i as int),
                seen@,
            ) =~= e0 + spec_unique_frags_errors(doc@, Seq::empty()));
        }
    }
    proof {
        assert(doc@.skip(i as int) =~= Seq::<Definition>::empty());
        assert(rule_errors_model(ctx.errors@) =~= e0 + spec_unique_frags_errors(
            doc@,
            Seq::empty(),
        ));
    }
}

/// Whether a catalogued entry is an input type: a scalar, an enum, or an
/// input object.
pub open spec fn spec_is_input_type(meta: MetaType) -> bool {
    ||| meta matches MetaType::Scalar { .. }
    ||| meta matches MetaType::Enum { .. }
    ||| meta matches MetaType::InputObject { .. }
}

/// The message `Variable "$N" cannot be non-input type "T"`.
pub open spec fn spec_non_input_type_message(n: Seq<char>, display: Seq<char>) -> Seq<char> {
    ((("Variable \"$"@ + n) + "\" cannot be non-input type \""@) + display) + "\""@
}

/// The message `Variable "$N" cannot be non-input type "T"`.
pub fn non_input_type_message(n: &str, display: &str) -> (r: String)
    ensures
        r@ == spec_non_input_type_message(n@, display@),
{
    "Variable \"$".to_owned().concat(n).concat("\" cannot be non-input type \"").concat(
        display,
    ).concat("\"")
}

/// The non-input-type errors of one variable declaration: one error
/// exactly when the declared type's innermost name is catalogued and is
/// not an input type. An uncatalogued name is the unknown-type rule's to
/// report.
pub open spec fn spec_input_type_errors_one(
    types: Seq<(String, MetaType)>,
    vd: (Spanning<String>, VariableDefinition),
) -> Seq<RuleErrorV> {
    match spec_lookup(types, vd.1.var_type.item.spec_innermost_name()) {
        Option::Some(meta) => if spec_is_input_type(meta) {
            Seq::empty()
        } else {
            seq![
                RuleErrorV {
                    message: spec_non_input_type_message(
                        vd.0.item@,
                        crate::coercion::spec_type_display(vd.1.var_type.item),
                    ),
                    locations: seq![vd.1.var_type.start],
                },
            ]
        },
        Option::None => Seq::empty(),
    }
}

/// The non-input-type errors of a declaration list, in order.
pub open spec fn spec_input_type_errors_defs(
    types: Seq<(String, MetaType)>,
    defs: Seq<(Spanning<String>, VariableDefinition)>,
) -> Seq<RuleErrorV>
    decreases defs,
{
    if defs.len() == 0 {
        Seq::empty()
    } else {
        spec_input_type_errors_one(types, defs[0]) + spec_input_type_errors_defs(
            types,
            defs.drop_first(),
        )
    }
}

/// The non-input-type errors of a whole document: every operation's
/// declarations, in order.
pub open spec fn spec_input_type_errors_document(
    types: Seq<(String, MetaType)>,
    defs: Seq<Definition>,
) -> Seq<RuleErrorV>
    decreases defs,
{
    if defs.len() == 0 {
        Seq::empty()
    } else {
        (match defs[0] {
            Definition::Operation(op) => spec_input_type_errors_defs(
                types,
                op.item.variable_definitions@,
            ),
            Definition::Fragment(_) => Seq::empty(),
        }) + spec_input_type_errors_document(types, defs.drop_first())
    }
}

/// Check an operation's declarations from position `i` on: every
/// declared variable type must be an input type.
#[verifier::loop_isolation(false)]
fn input_types_check_defs(
    ctx: &mut ValidatorContext<'_>,
    defs: &Vec<(Spanning<String>, VariableDefinition)>,
    i: usize,
)
    requires
        i <= defs@.len(),
    ensures
        final(ctx).schema == old(ctx).schema,
        rule_errors_model(final(ctx).errors@) == rule_errors_model(old(ctx).errors@)
            + spec_input_type_errors_defs(old(ctx).schema.types@, defs@.skip(i as int)),
    decreases defs@.len() - i,
{
    if i == defs.len() {
        proof {
            assert(defs@.skip(i as int) =~= Seq::<(Spanning<String>, VariableDefinition)>::empty());
            assert(rule_errors_model(ctx.errors@) =~= rule_errors_model(ctx.errors@) + Seq::<
                RuleErrorV,
            >::empty());
        }
        return ;
    }
    proof {
        assert(defs@.skip(i as int)[0] == defs@[i as int]);
        assert(defs@.skip(i as int).drop_first() =~= defs@.skip(i as int + 1));
    }
    let ghost e0 = rule_errors_model(ctx.errors@);
    let vd = &defs[i];
    let inner = vd.1.var_type.item.innermost_name();
    match ctx.schema.type_by_name(inner) {
        Option::Some(meta) => {
            let is_input = match meta {
                MetaType::Scalar { .. } => true,
                MetaType::Enum { .. } => true,
                MetaType::InputObject { .. } => true,
                _ => false,
            };
            if !is_input {
                let display = crate::coercion::type_display(&vd.1.var_type.item);
                let msg = non_input_type_message(vd.0.item.as_str(), display.as_str());
                let mut locs: Vec<SourcePosition> = Vec::new();
                locs.push(vd.1.var_type.start);
                ctx.report_error(msg.as_str(), locs.as_slice());
            }
        },
        Option::None => {},
    }
    proof {
        assert(rule_errors_model(ctx.errors@) =~= e0 + spec_input_type_errors_one(
            ctx.schema.types@,
            defs@[i as int],
        ));
    }
    input_types_check_defs(ctx, defs, i + 1);
    proof {
        assert(rule_errors_model(ctx.errors@) =~= rule_errors_model(old(ctx).errors@)
            + spec_input_type_errors_defs(old(ctx).schema.types@, defs@.skip(i as int)));
    }
}

/// Run the variables-are-input-types rule over a whole document.
#[verifier::loop_isolation(false)]
pub fn validate_variables_are_input_types(ctx: &mut ValidatorContext<'_>, doc: &Document)
    ensures
        final(ctx).schema == old(ctx).schema,
        rule_errors_model(final(ctx).errors@) == rule_errors_model(old(ctx).errors@)
            + spec_input_type_errors_document(old(ctx).schema.types@, doc@),
{
    let mut i: usize = 0;
    proof {
        assert(doc@.skip(0) =~= doc@);
    }
    let ghost e0 = rule_errors_model(ctx.errors@);
    while i < doc.len()
        invariant
            i <= doc@.len(),
            ctx.schema == old(ctx).schema,
            rule_errors_model(ctx.errors@) + spec_input_type_errors_document(
                ctx.schema.types@,
                doc@.skip(i as int),
            ) =~= e0 + spec_input_type_errors_document(ctx.schema.types@, doc@),
        decreases doc@.len() - i,
    {
        proof {
            assert(doc@.skip(i as int)[0] == doc@[i as int]);
            assert(doc@.skip(i as int).drop_first() =~= doc@.skip(i as int + 1));
        }
        match &doc[i] {
            Definition::Operation(op) => {
                proof {
                    assert(op.item.variable_definitions@.skip(0)
                        =~= op.item.variable_definitions@);
                }
                input_types_check_defs(ctx, &op.item.variable_definitions, 0);
            },
            Definition::Fragment(_) => {},
        }
        i = i + 1;
        proof {
            assert(rule_errors_model(ctx.errors@) + spec_input_type_errors_document(
                ctx.schema.types@,
                doc@.skip(i as int),
            ) =~= e0 + spec_input_type_errors_document(ctx.schema.types@, doc@));
        }
    }
    proof {
        assert(doc@.skip(i as int) =~= Seq::<Definition>::empty());
        assert(rule_errors_model(ctx.errors@) =~= e0 + spec_input_type_errors_document(
            ctx.schema.types@,
            doc@,
        ));
    }
}


/// The message `Field "F" must not have a selection since type "T" has
/// no subfields`.
pub open spec fn spec_no_subfields_message(f: Seq<char>, display: Seq<char>) -> Seq<char> {
    ((("Field \""@ + f) + "\" must not have a selection since type \""@) + display)
        + "\" has no subfields"@
}

/// The message `Field "F" must not have a selection since type "T" has
/// no subfields`.
pub fn no_subfields_message(f: &str, display: &str) -> (r: String)
    ensures
        r@ == spec_no_subfields_message(f@, display@),
{
    "Field \"".to_owned().concat(f).concat("\" must not have a selection since type \"").concat(
        display,
    ).concat("\" has no subfields")
}

/// The message `Field "F" of type "T" must have a selection of
/// subfields`.
pub open spec fn spec_needs_subfields_message(f: Seq<char>, display: Seq<char>) -> Seq<char> {
    ((("Field \""@ + f) + "\" of type \""@) + display) + "\" must have a selection of subfields"@
}

/// The message `Field "F" of type "T" must have a selection of
/// subfields`.
pub fn needs_subfields_message(f: &str, display: &str) -> (r: String)
    ensures
        r@ == spec_needs_subfields_message(f@, display@),
{
    "Field \"".to_owned().concat(f).concat("\" of type \"").concat(display).concat(
        "\" must have a selection of subfields",
    )
}

/// The selection-shape errors a field itself contributes: a leaf-typed
/// field (scalar or enum) must carry no subselection, a composite-typed
/// field (object, interface, or union) must carry one. A field the
/// enclosing type does not declare, or whose type is not catalogued, is
/// left to the other rules.
pub open spec fn spec_leaf_own(
    types: Seq<(String, MetaType)>,
    tname: Seq<char>,
    f: Spanning<crate::ast::Field>,
) -> Seq<RuleErrorV> {
    match crate::executor::spec_field_of(types, tname, f.item.name.item@) {
        Option::None => Seq::empty(),
        Option::Some(meta) => match spec_lookup(types, meta.field_type.spec_innermost_name()) {
            Option::None => Seq::empty(),
            Option::Some(inner) => {
                let leaf = inner matches MetaType::Scalar { .. } || inner matches MetaType::Enum {
                    ..
                };
                let composite = inner matches MetaType::Object { .. } || inner
                    matches MetaType::Interface { .. } || inner matches MetaType::Union { .. };
                if leaf && (f.item.selection_set matches Option::Some(_)) {
                    seq![
                        RuleErrorV {
                            message: spec_no_subfields_message(
                                f.item.name.item@,
                                crate::coercion::spec_type_display(meta.field_type),
                            ),
                            locations: seq![f.start],
                        },
                    ]
                } else if composite && (f.item.selection_set matches Option::None) {
                    seq![
                        RuleErrorV {
                            message: spec_needs_subfields_message(
                                f.item.name.item@,
                                crate::coercion::spec_type_display(meta.field_type),
                            ),
                            locations: seq![f.start],
                        },
                    ]
                } else {
                    Seq::empty()
                }
            },
        },
    }
}

/// The selection-shape errors of one selection, in traversal order.
pub open spec fn spec_leaf_sel(
    types: Seq<(String, MetaType)>,
    tname: Seq<char>,
    sel: Selection,
) -> Seq<RuleErrorV>
    decreases sel, 1int,
{
    match sel {
        Selection::Field(f) => spec_leaf_own(types, tname, f) + (match crate::executor::spec_field_of(
            types,
            tname,
            f.item.name.item@,
        ) {
            Option::None => Seq::empty(),
            Option::Some(meta) => match f.item.selection_set {
                Option::Some(ss) => spec_leaf_sels(
                    types,
                    meta.field_type.spec_innermost_name(),
                    ss@,
                ),
                Option::None => Seq::empty(),
            },
        }),
        Selection::FragmentSpread(_) => Seq::empty(),
        Selection::InlineFragment(il) => match il.item.type_condition {
            Option::Some(c) => spec_leaf_sels(types, c.item@, il.item.selection_set@),
            Option::None => spec_leaf_sels(types, tname, il.item.selection_set@),
        },
    }
}

/// The selection-shape errors of a selection list, in order.
pub open spec fn spec_leaf_sels(
    types: Seq<(String, MetaType)>,
    tname: Seq<char>,
    sels: Seq<Selection>,
) -> Seq<RuleErrorV>
    decreases sels, 0int,
{
    if sels.len() == 0 {
        Seq::empty()
    } else {
        spec_leaf_sel(types, tname, sels[0]) + spec_leaf_sels(types, tname, sels.drop_first())
    }
}

/// The selection-shape errors of a whole document: operations start at
/// the root query or mutation type, fragments at their type condition.
pub open spec fn spec_leaf_document(schema: Schema, defs: Seq<Definition>) -> Seq<RuleErrorV>
    decreases defs,
{
    if defs.len() == 0 {
        Seq::empty()
    } else {
        (match defs[0] {
            Definition::Operation(op) => {
                let root = if (op.item.operation_type matches crate::ast::OperationType::Mutation) {
                    match schema.mutation_type_name {
                        Option::Some(m) => m@,
                        Option::None => schema.query_type_name@,
                    }
                } else {
                    schema.query_type_name@
                };
                spec_leaf_sels(schema.types@, root, op.item.selection_set@)
            },
            Definition::Fragment(fr) => spec_leaf_sels(
                schema.types@,
                fr.item.type_condition.item@,
                fr.item.selection_set@,
            ),
        }) + spec_leaf_document(schema, defs.drop_first())
    }
}

/// Walk a selection list from position `i` on under the type `tname`,
/// checking every field's selection shape against its declared type.
#[verifier::loop_isolation(false)]
fn leaf_walk_sels(ctx: &mut ValidatorContext<'_>, tname: &String, sels: &Vec<Selection>, i: usize)
    requires
        i <= sels@.len(),
    ensures
        final(ctx).schema == old(ctx).schema,
        rule_errors_model(final(ctx).errors@) == rule_errors_model(old(ctx).errors@)
            + spec_leaf_sels(old(ctx).schema.types@, tname@, sels@.skip(i as int)),
    decreases sels@.skip(i as int), 0int,
{
    if i == sels.len() {
        proof {
            assert(sels@.skip(i as int) =~= Seq::<Selection>::empty());
            assert(rule_errors_model(ctx.errors@) =~= rule_errors_model(ctx.errors@) + Seq::<
                RuleErrorV,
            >::empty());
        }
        return ;
    }
    proof {
        assert(sels@.skip(i as int)[0] == sels@[i as int]);
        assert(decreases_to!(sels@.skip(i as int) => sels@.skip(i as int)[0]));
        assert(sels@.skip(i as int).drop_first() =~= sels@.skip(i as int + 1));
        assert(decreases_to!(sels@.skip(i as int) => sels@.skip(i as int).drop_first()));
    }
    let ghost e0 = rule_errors_model(ctx.errors@);
    match &sels[i] {
        Selection::Field(f) => {
            match crate::executor::field_meta_of(
                ctx.schema,
                tname.as_str(),
                f.item.name.item.as_str(),
            ) {
                Option::Some(meta) => {
                    match ctx.schema.type_by_name(meta.field_type.innermost_name()) {
                        Option::Some(inner) => {
                            let leaf = match inner {
                                MetaType::Scalar { .. } => true,
                                MetaType::Enum { .. } => true,
                                _ => false,
                            };
                            let composite = match inner {
                                MetaType::Object { .. } => true,
                                MetaType::Interface { .. } => true,
                                MetaType::Union { .. } => true,
                                _ => false,
                            };
                            let has_sels = match &f.item.selection_set {
                                Option::Some(_) => true,
                                Option::None => false,
                            };
                            if leaf && has_sels {
                                let display = crate::coercion::type_display(&meta.field_type);
                                let msg = no_subfields_message(
                                    f.item.name.item.as_str(),
                                    display.as_str(),
                                );
                                let mut locs: Vec<SourcePosition> = Vec::new();
                                locs.push(f.start);
                                ctx.report_error(msg.as_str(), locs.as_slice());
                            } else if composite && !has_sels {
                                let display = crate::coercion::type_display(&meta.field_type);
                                let msg = needs_subfields_message(
                                    f.item.name.item.as_str(),
                                    display.as_str(),
                                );
                                let mut locs: Vec<SourcePosition> = Vec::new();
                                locs.push(f.start);
                                ctx.report_error(msg.as_str(), locs.as_slice());
                            }
                        },
                        Option::None => {},
                    }
                    let child_type = meta.field_type.innermost_name().to_owned();
                    match &f.item.selection_set {
                        Option::Some(ss) => {
                            proof {
                                assert(decreases_to!(sels@.skip(i as int)[0] => *f));
                                assert(decreases_to!(*f => f.item));
                                assert(decreases_to!(f.item => f.item.selection_set));
                                assert(decreases_to!(f.item.selection_set => *ss));
                                assert(decreases_to!(*ss => ss@));
                                assert(ss@.skip(0) =~= ss@);
                            }
                            leaf_walk_sels(ctx, &child_type, ss, 0);
                        },
                        Option::None => {},
                    }
                },
                Option::None => {},
            }
            proof {
                assert(rule_errors_model(ctx.errors@) =~= e0 + spec_leaf_sel(
                    ctx.schema.types@,
                    tname@,
                    sels@[i as int],
                ));
            }
        },
        Selection::FragmentSpread(_) => {
            proof {
                assert(rule_errors_model(ctx.errors@) =~= e0 + spec_leaf_sel(
                    ctx.schema.types@,
                    tname@,
                    sels@[i as int],
                ));
            }
        },
        Selection::InlineFragment(il) => {
            let cond_type = match &il.item.type_condition {
                Option::Some(c) => c.item.clone(),
                Option::None => tname.clone(),
            };
            let isels = &il.item.selection_set;
            proof {
                assert(decreases_to!(sels@.skip(i as int)[0] => *il));
                assert(decreases_to!(*il => il.item));
                assert(decreases_to!(il.item => il.item.selection_set));
                assert(decreases_to!(il.item.selection_set => il.item.selection_set@));
                assert(il.item.selection_set@.skip(0) =~= il.item.selection_set@);
            }
            leaf_walk_sels(ctx, &cond_type, isels, 0);
            proof {
                assert(rule_errors_model(ctx.errors@) =~= e0 + spec_leaf_sel(
                    ctx.schema.types@,
                    tname@,
                    sels@[i as int],
                ));
            }
        },
    }
    leaf_walk_sels(ctx, tname, sels, i + 1);
    proof {
        assert(rule_errors_model(ctx.errors@) =~= rule_errors_model(old(ctx).errors@)
            + spec_leaf_sels(old(ctx).schema.types@, tname@, sels@.skip(i as int)));
    }
}

/// Run the selection-shape rule over a whole document: leaf fields carry
/// no subselection, composite fields carry one.
#[verifier::loop_isolation(false)]
pub fn validate_selection_shapes(ctx: &mut ValidatorContext<'_>, doc: &Document)
    ensures
        final(ctx).schema == old(ctx).schema,
        rule_errors_model(final(ctx).errors@) == rule_errors_model(old(ctx).errors@)
            + spec_leaf_document(*old(ctx).schema, doc@),
{
    let mut i: usize = 0;
    proof {
        assert(doc@.skip(0) =~= doc@);
    }
    let ghost e0 = rule_errors_model(ctx.errors@);
    while i < doc.len()
        invariant
            i <= doc@.len(),
            ctx.schema == old(ctx).schema,
            rule_errors_model(ctx.errors@) + spec_leaf_document(*ctx.schema, doc@.skip(i as int))
                =~= e0 + spec_leaf_document(*ctx.schema, doc@),
        decreases doc@.len() - i,
    {
        proof {
            assert(doc@.skip(i as int)[0] == doc@[i as int]);
            assert(doc@.skip(i as int).drop_first() =~= doc@.skip(i as int + 1));
        }
        match &doc[i] {
            Definition::Operation(op) => {
                let is_mutation = match op.item.operation_type {
                    crate::ast::OperationType::Mutation => true,
                    crate::ast::OperationType::Query => false,
                };
                let root = if is_mutation {
                    match &ctx.schema.mutation_type_name {
                        Option::Some(m) => m.clone(),
                        Option::None => ctx.schema.query_type_name.clone(),
                    }
                } else {
                    ctx.schema.query_type_name.clone()
                };
                proof {
                    assert(op.item.selection_set@.skip(0) =~= op.item.selection_set@);
                }
                leaf_walk_sels(ctx, &root, &op.item.selection_set, 0);
            },
            Definition::Fragment(fr) => {
                proof {
                    assert(fr.item.selection_set@.skip(0) =~= fr.item.selection_set@);
                }
                leaf_walk_sels(ctx, &fr.item.type_condition.item, &fr.item.selection_set, 0);
            },
        }
        i = i + 1;
        proof {
            assert(rule_errors_model(ctx.errors@) + spec_leaf_document(
                *ctx.schema,
                doc@.skip(i as int),
            ) =~= e0 + spec_leaf_document(*ctx.schema, doc@));
        }
    }
    proof {
        assert(doc@.skip(i as int) =~= Seq::<Definition>::empty());
        assert(rule_errors_model(ctx.errors@) =~= e0 + spec_leaf_document(*ctx.schema, doc@));
    }
}


/// The message `Unknown field "F" on type "T"`.
pub open spec fn spec_unknown_field_message(f: Seq<char>, tname: Seq<char>) -> Seq<char> {
    ((("Unknown field \""@ + f) + "\" on type \""@) + tname) + "\""@
}

/// The message `Unknown field "F" on type "T"`.
pub fn unknown_field_on_type_message(f: &str, tname: &str) -> (r: String)
    ensures
        r@ == spec_unknown_field_message(f@, tname@),
{
    "Unknown field \"".to_owned().concat(f).concat("\" on type \"").concat(tname).concat("\"")
}

/// Whether a field name is one of the reserved meta fields, which every
/// type answers without declaring them.
pub open spec fn spec_is_meta_field(n: Seq<char>) -> bool {
    n == "__typename"@ || n == "__schema"@ || n == "__type"@
}

/// Whether a field name is one of the reserved meta fields.
pub fn is_meta_field(n: &str) -> (r: bool)
    ensures
        r == spec_is_meta_field(n@),
{
    crate::strutil::str_eq(n, "__typename") || crate::strutil::str_eq(n, "__schema")
        || crate::strutil::str_eq(n, "__type")
}

/// The unknown-field error a field itself contributes: one error exactly
/// when the enclosing type is a catalogued object or interface that does
/// not declare the field, the name not being a reserved meta field.
pub open spec fn spec_fields_own(
    types: Seq<(String, MetaType)>,
    tname: Seq<char>,
    f: Spanning<crate::ast::Field>,
) -> Seq<RuleErrorV> {
    if spec_is_meta_field(f.item.name.item@) {
        Seq::empty()
    } else {
        match spec_lookup(types, tname) {
            Option::Some(MetaType::Object { fields, .. }) => match crate::executor::spec_field_by_name(
                fields@,
                f.item.name.item@,
            ) {
                Option::Some(_) => Seq::empty(),
                Option::None => seq![
                    RuleErrorV {
                        message: spec_unknown_field_message(f.item.name.item@, tname),
                        locations: seq![f.start],
                    },
                ],
            },
            Option::Some(MetaType::Interface { fields, .. }) => match crate::executor::spec_field_by_name(
                fields@,
                f.item.name.item@,
            ) {
                Option::Some(_) => Seq::empty(),
                Option::None => seq![
                    RuleErrorV {
                        message: spec_unknown_field_message(f.item.name.item@, tname),
                        locations: seq![f.start],
                    },
                ],
            },
            _ => Seq::empty(),
        }
    }
}

/// The unknown-field errors of one selection, in traversal order.
pub open spec fn spec_fields_sel(
    types: Seq<(String, MetaType)>,
    tname: Seq<char>,
    sel: Selection,
) -> Seq<RuleErrorV>
    decreases sel, 1int,
{
    match sel {
        Selection::Field(f) => spec_fields_own(types, tname, f) + (match crate::executor::spec_field_of(
            types,
            tname,
            f.item.name.item@,
        ) {
            Option::None => Seq::empty(),
            Option::Some(meta) => match f.item.selection_set {
                Option::Some(ss) => spec_fields_sels(
                    types,
                    meta.field_type.spec_innermost_name(),
                    ss@,
                ),
                Option::None => Seq::empty(),
            },
        }),
        Selection::FragmentSpread(_) => Seq::empty(),
        Selection::InlineFragment(il) => match il.item.type_condition {
            Option::Some(c) => spec_fields_sels(types, c.item@, il.item.selection_set@),
            Option::None => spec_fields_sels(types, tname, il.item.selection_set@),
        },
    }
}

/// The unknown-field errors of a selection list, in order.
pub open spec fn spec_fields_sels(
    types: Seq<(String, MetaType)>,
    tname: Seq<char>,
    sels: Seq<Selection>,
) -> Seq<RuleErrorV>
    decreases sels, 0int,
{
    if sels.len() == 0 {
        Seq::empty()
    } else {
        spec_fields_sel(types, tname, sels[0]) + spec_fields_sels(types, tname, sels.drop_first())
    }
}

/// The unknown-field errors of a whole document.
pub open spec fn spec_fields_document(schema: Schema, defs: Seq<Definition>) -> Seq<RuleErrorV>
    decreases defs,
{
    if defs.len() == 0 {
        Seq::empty()
    } else {
        (match defs[0] {
            Definition::Operation(op) => {
                let root = if (op.item.operation_type matches crate::ast::OperationType::Mutation) {
                    match schema.mutation_type_name {
                        Option::Some(m) => m@,
                        Option::None => schema.query_type_name@,
                    }
                } else {
                    schema.query_type_name@
                };
                spec_fields_sels(schema.types@, root, op.item.selection_set@)
            },
            Definition::Fragment(fr) => spec_fields_sels(
                schema.types@,
                fr.item.type_condition.item@,
                fr.item.selection_set@,
            ),
        }) + spec_fields_document(schema, defs.drop_first())
    }
}

/// Walk a selection list from position `i` on under the type `tname`,
/// checking every field is declared on its enclosing type.
#[verifier::loop_isolation(false)]
fn fields_walk_sels(ctx: &mut ValidatorContext<'_>, tname: &String, sels: &Vec<Selection>, i: usize)
    requires
        i <= sels@.len(),
    ensures
        final(ctx).schema == old(ctx).schema,
        rule_errors_model(final(ctx).errors@) == rule_errors_model(old(ctx).errors@)
            + spec_fields_sels(old(ctx).schema.types@, tname@, sels@.skip(i as int)),
    decreases sels@.skip(i as int), 0int,
{
    if i == sels.len() {
        proof {
            assert(sels@.skip(i as int) =~= Seq::<Selection>::empty());
            assert(rule_errors_model(ctx.errors@) =~= rule_errors_model(ctx.errors@) + Seq::<
                RuleErrorV,
            >::empty());
        }
        return ;
    }
    proof {
        assert(sels@.skip(i as int)[0] == sels@[i as int]);
        assert(decreases_to!(sels@.skip(i as int) => sels@.skip(i as int)[0]));
        assert(sels@.skip(i as int).drop_first() =~= sels@.skip(i as int + 1));
        assert(decreases_to!(sels@.skip(i as int) => sels@.skip(i as int).drop_first()));
    }
    let ghost e0 = rule_errors_model(ctx.errors@);
    match &sels[i] {
        Selection::Field(f) => {
            if !is_meta_field(f.item.name.item.as_str()) {
                let missing = match ctx.schema.type_by_name(tname.as_str()) {
                    Option::Some(MetaType::Object { fields, .. }) => match crate::executor::field_by_name_in(
                        fields,
                        f.item.name.item.as_str(),
                    ) {
                        Option::Some(_) => false,
                        Option::None => true,
                    },
                    Option::Some(MetaType::Interface { fields, .. }) => match crate::executor::field_by_name_in(
                        fields,
                        f.item.name.item.as_str(),
                    ) {
                        Option::Some(_) => false,
                        Option::None => true,
                    },
                    _ => false,
                };
                if missing {
                    let msg = unknown_field_on_type_message(
                        f.item.name.item.as_str(),
                        tname.as_str(),
                    );
                    let mut locs: Vec<SourcePosition> = Vec::new();
                    locs.push(f.start);
                    ctx.report_error(msg.as_str(), locs.as_slice());
                }
            }
            match crate::executor::field_meta_of(
                ctx.schema,
                tname.as_str(),
                f.item.name.item.as_str(),
            ) {
                Option::Some(meta) => {
                    let child_type = meta.field_type.innermost_name().to_owned();
                    match &f.item.selection_set {
                        Option::Some(ss) => {
                            proof {
                                assert(decreases_to!(sels@.skip(i as int)[0] => *f));
                                assert(decreases_to!(*f => f.item));
                                assert(decreases_to!(f.item => f.item.selection_set));
                                assert(decreases_to!(f.item.selection_set => *ss));
                                assert(decreases_to!(*ss => ss@));
                                assert(ss@.skip(0) =~= ss@);
                            }
                            fields_walk_sels(ctx, &child_type, ss, 0);
                        },
                        Option::None => {},
                    }
                },
                Option::None => {},
            }
            proof {
                assert(rule_errors_model(ctx.errors@) =~= e0 + spec_fields_sel(
                    ctx.schema.types@,
                    tname@,
                    sels@[i as int],
                ));
            }
        },
        Selection::FragmentSpread(_) => {
            proof {
                assert(rule_errors_model(ctx.errors@) =~= e0 + spec_fields_sel(
                    ctx.schema.types@,
                    tname@,
                    sels@[i as int],
                ));
            }
        },
        Selection::InlineFragment(il) => {
            let cond_type = match &il.item.type_condition {
                Option::Some(c) => c.item.clone(),
                Option::None => tname.clone(),
            };
            let isels = &il.item.selection_set;
            proof {
                assert(decreases_to!(sels@.skip(i as int)[0] => *il));
                assert(decreases_to!(*il => il.item));
                assert(decreases_to!(il.item => il.item.selection_set));
                assert(decreases_to!(il.item.selection_set => il.item.selection_set@));
                assert(il.item.selection_set@.skip(0) =~= il.item.selection_set@);
            }
            fields_walk_sels(ctx, &cond_type, isels, 0);
            proof {
                assert(rule_errors_model(ctx.errors@) =~= e0 + spec_fields_sel(
                    ctx.schema.types@,
                    tname@,
                    sels@[i as int],
                ));
            }
        },
    }
    fields_walk_sels(ctx, tname, sels, i + 1);
    proof {
        assert(rule_errors_model(ctx.errors@) =~= rule_errors_model(old(ctx).errors@)
            + spec_fields_sels(old(ctx).schema.types@, tname@, sels@.skip(i as int)));
    }
}

/// Run the fields-on-correct-type rule over a whole document: every
/// selected field must be declared on the catalogued object or interface
/// type it is selected from.
#[verifier::loop_isolation(false)]
pub fn validate_fields_on_correct_type(ctx: &mut ValidatorContext<'_>, doc: &Document)
    ensures
        final(ctx).schema == old(ctx).schema,
        rule_errors_model(final(ctx).errors@) == rule_errors_model(old(ctx).errors@)
            + spec_fields_document(*old(ctx).schema, doc@),
{
    let mut i: usize = 0;
    proof {
        assert(doc@.skip(0) =~= doc@);
    }
    let ghost e0 = rule_errors_model(ctx.errors@);
    while i < doc.len()
        invariant
            i <= doc@.len(),
            ctx.schema == old(ctx).schema,
            rule_errors_model(ctx.errors@) + spec_fields_document(
                *ctx.schema,
                doc@.skip(i as int),
            ) =~= e0 + spec_fields_document(*ctx.schema, doc@),
        decreases doc@.len() - i,
    {
        proof {
            assert(doc@.skip(i as int)[0] == doc@[i as int]);
            assert(doc@.skip(i as int).drop_first() =~= doc@.skip(i as int + 1));
        }
        match &doc[i] {
            Definition::Operation(op) => {
                let is_mutation = match op.item.operation_type {
                    crate::ast::OperationType::Mutation => true,
                    crate::ast::OperationType::Query => false,
                };
                let root = if is_mutation {
                    match &ctx.schema.mutation_type_name {
                        Option::Some(m) => m.clone(),
                        Option::None => ctx.schema.query_type_name.clone(),
                    }
                } else {
                    ctx.schema.query_type_name.clone()
                };
                proof {
                    assert(op.item.selection_set@.skip(0) =~= op.item.selection_set@);
                }
                fields_walk_sels(ctx, &root, &op.item.selection_set, 0);
            },
            Definition::Fragment(fr) => {
                proof {
                    assert(fr.item.selection_set@.skip(0) =~= fr.item.selection_set@);
                }
                fields_walk_sels(ctx, &fr.item.type_condition.item, &fr.item.selection_set, 0);
            },
        }
        i = i + 1;
        proof {
            assert(rule_errors_model(ctx.errors@) + spec_fields_document(
                *ctx.schema,
                doc@.skip(i as int),
            ) =~= e0 + spec_fields_document(*ctx.schema, doc@));
        }
    }
    proof {
        assert(doc@.skip(i as int) =~= Seq::<Definition>::empty());
        assert(rule_errors_model(ctx.errors@) =~= e0 + spec_fields_document(*ctx.schema, doc@));
    }
}


/// The message `Unknown argument "A" on field "F" of type "T"`.
pub open spec fn spec_unknown_arg_message(a: Seq<char>, f: Seq<char>, tname: Seq<char>) -> Seq<
    char,
> {
    ((((("Unknown argument \""@ + a) + "\" on field \""@) + f) + "\" of type \""@) + tname)
        + "\""@
}

/// The message `Unknown argument "A" on field "F" of type "T"`.
pub fn unknown_arg_message(a: &str, f: &str, tname: &str) -> (r: String)
    ensures
        r@ == spec_unknown_arg_message(a@, f@, tname@),
{
    "Unknown argument \"".to_owned().concat(a).concat("\" on field \"").concat(f).concat(
        "\" of type \"",
    ).concat(tname).concat("\"")
}

/// The message `Field "F" argument "A" of type "D" is required but not
/// provided`.
pub open spec fn spec_missing_arg_message(f: Seq<char>, a: Seq<char>, display: Seq<char>) -> Seq<
    char,
> {
    ((((("Field \""@ + f) + "\" argument \""@) + a) + "\" of type \""@) + display)
        + "\" is required but not provided"@
}

/// The message `Field "F" argument "A" of type "D" is required but not
/// provided`.
pub fn missing_arg_message(f: &str, a: &str, display: &str) -> (r: String)
    ensures
        r@ == spec_missing_arg_message(f@, a@, display@),
{
    "Field \"".to_owned().concat(f).concat("\" argument \"").concat(a).concat(
        "\" of type \"",
    ).concat(display).concat("\" is required but not provided")
}

/// The argument errors a field itself contributes: every written
/// argument must be declared, and every declared non-null argument
/// without a default must be written.
pub open spec fn spec_arg_names_own(
    types: Seq<(String, MetaType)>,
    tname: Seq<char>,
    f: Spanning<crate::ast::Field>,
) -> Seq<RuleErrorV> {
    match crate::executor::spec_field_of(types, tname, f.item.name.item@) {
        Option::None => Seq::empty(),
        Option::Some(meta) => spec_unknown_args(tname, f.item.name.item@, meta.arguments@, f.item.arguments@)
            + spec_missing_args(f.item.name.item@, meta.arguments@, f.item.arguments@, f.start),
    }
}

/// One error per written argument the field does not declare, in order.
pub open spec fn spec_unknown_args(
    tname: Seq<char>,
    fname: Seq<char>,
    decl: Seq<crate::schema::ArgumentMeta>,
    written: Seq<(Spanning<String>, Spanning<crate::ast::InputValue>)>,
) -> Seq<RuleErrorV>
    decreases written,
{
    if written.len() == 0 {
        Seq::empty()
    } else {
        (match crate::coercion::spec_arg_by_name(decl, written[0].0.item@) {
            Option::Some(_) => Seq::empty(),
            Option::None => seq![
                RuleErrorV {
                    message: spec_unknown_arg_message(written[0].0.item@, fname, tname),
                    locations: seq![written[0].0.start],
                },
            ],
        }) + spec_unknown_args(tname, fname, decl, written.drop_first())
    }
}

/// One error per declared non-null argument without a default that the
/// field does not write, in declaration order.
pub open spec fn spec_missing_args(
    fname: Seq<char>,
    decl: Seq<crate::schema::ArgumentMeta>,
    written: Seq<(Spanning<String>, Spanning<crate::ast::InputValue>)>,
    pos: SourcePosition,
) -> Seq<RuleErrorV>
    decreases decl,
{
    if decl.len() == 0 {
        Seq::empty()
    } else {
        (if decl[0].arg_type.spec_is_non_null() && (decl[0].default_value matches Option::None)
            && (crate::executor::spec_written_value(written, decl[0].name@)
            matches Option::None) {
            seq![
                RuleErrorV {
                    message: spec_missing_arg_message(
                        fname,
                        decl[0].name@,
                        crate::coercion::spec_type_display(decl[0].arg_type),
                    ),
                    locations: seq![pos],
                },
            ]
        } else {
            Seq::empty()
        }) + spec_missing_args(fname, decl.drop_first(), written, pos)
    }
}

/// The argument-name errors of one selection, in traversal order.
pub open spec fn spec_arg_names_sel(
    types: Seq<(String, MetaType)>,
    tname: Seq<char>,
    sel: Selection,
) -> Seq<RuleErrorV>
    decreases sel, 1int,
{
    match sel {
        Selection::Field(f) => spec_arg_names_own(types, tname, f) + (match crate::executor::spec_field_of(
            types,
            tname,
            f.item.name.item@,
        ) {
            Option::None => Seq::empty(),
            Option::Some(meta) => match f.item.selection_set {
                Option::Some(ss) => spec_arg_names_sels(
                    types,
                    meta.field_type.spec_innermost_name(),
                    ss@,
                ),
                Option::None => Seq::empty(),
            },
        }),
        Selection::FragmentSpread(_) => Seq::empty(),
        Selection::InlineFragment(il) => match il.item.type_condition {
            Option::Some(c) => spec_arg_names_sels(types, c.item@, il.item.selection_set@),
            Option::None => spec_arg_names_sels(types, tname, il.item.selection_set@),
        },
    }
}

/// The argument-name errors of a selection list, in order.
pub open spec fn spec_arg_names_sels(
    types: Seq<(String, MetaType)>,
    tname: Seq<char>,
    sels: Seq<Selection>,
) -> Seq<RuleErrorV>
    decreases sels, 0int,
{
    if sels.len() == 0 {
        Seq::empty()
    } else {
        spec_arg_names_sel(types, tname, sels[0]) + spec_arg_names_sels(
            types,
            tname,
            sels.drop_first(),
        )
    }
}

/// The argument-name errors of a whole document.
pub open spec fn spec_arg_names_document(schema: Schema, defs: Seq<Definition>) -> Seq<RuleErrorV>
    decreases defs,
{
    if defs.len() == 0 {
        Seq::empty()
    } else {
        (match defs[0] {
            Definition::Operation(op) => {
                let root = if (op.item.operation_type matches crate::ast::OperationType::Mutation) {
                    match schema.mutation_type_name {
                        Option::Some(m) => m@,
                        Option::None => schema.query_type_name@,
                    }
                } else {
                    schema.query_type_name@
                };
                spec_arg_names_sels(schema.types@, root, op.item.selection_set@)
            },
            Definition::Fragment(fr) => spec_arg_names_sels(
                schema.types@,
                fr.item.type_condition.item@,
                fr.item.selection_set@,
            ),
        }) + spec_arg_names_document(schema, defs.drop_first())
    }
}

/// Check a written argument list from position `i` on: each must be
/// declared.
#[verifier::loop_isolation(false)]
fn arg_names_check_written(
    ctx: &mut ValidatorContext<'_>,
    tname: &String,
    fname: &String,
    decl: &Vec<crate::schema::ArgumentMeta>,
    written: &Vec<(Spanning<String>, Spanning<crate::ast::InputValue>)>,
    i: usize,
)
    requires
        i <= written@.len(),
    ensures
        final(ctx).schema == old(ctx).schema,
        rule_errors_model(final(ctx).errors@) == rule_errors_model(old(ctx).errors@)
            + spec_unknown_args(tname@, fname@, decl@, written@.skip(i as int)),
    decreases written@.len() - i,
{
    if i == written.len() {
        proof {
            assert(written@.skip(i as int) =~= Seq::<
                (Spanning<String>, Spanning<crate::ast::InputValue>),
            >::empty());
            assert(rule_errors_model(ctx.errors@) =~= rule_errors_model(ctx.errors@) + Seq::<
                RuleErrorV,
            >::empty());
        }
        return ;
    }
    proof {
        assert(written@.skip(i as int)[0] == written@[i as int]);
        assert(written@.skip(i as int).drop_first() =~= written@.skip(i as int + 1));
    }
    let ghost e0 = rule_errors_model(ctx.errors@);
    let arg = &written[i];
    match crate::coercion::arg_by_name(decl, arg.0.item.as_str()) {
        Option::Some(_) => {},
        Option::None => {
            let msg = unknown_arg_message(arg.0.item.as_str(), fname.as_str(), tname.as_str());
            let mut locs: Vec<SourcePosition> = Vec::new();
            locs.push(arg.0.start);
            ctx.report_error(msg.as_str(), locs.as_slice());
        },
    }
    proof {
        assert(rule_errors_model(ctx.errors@) =~= e0 + (match crate::coercion::spec_arg_by_name(
            decl@,
            written@[i as int].0.item@,
        ) {
            Option::Some(_) => Seq::<RuleErrorV>::empty(),
            Option::None => seq![
                RuleErrorV {
                    message: spec_unknown_arg_message(
                        written@[i as int].0.item@,
                        fname@,
                        tname@,
                    ),
                    locations: seq![written@[i as int].0.start],
                },
            ],
        }));
    }
    arg_names_check_written(ctx, tname, fname, decl, written, i + 1);
    proof {
        assert(rule_errors_model(ctx.errors@) =~= rule_errors_model(old(ctx).errors@)
            + spec_unknown_args(tname@, fname@, decl@, written@.skip(i as int)));
    }
}

/// Check a declared argument list from position `i` on: each required
/// one must be written.
#[verifier::loop_isolation(false)]
fn arg_names_check_required(
    ctx: &mut ValidatorContext<'_>,
    fname: &String,
    decl: &Vec<crate::schema::ArgumentMeta>,
    written: &Vec<(Spanning<String>, Spanning<crate::ast::InputValue>)>,
    pos: SourcePosition,
    i: usize,
)
    requires
        i <= decl@.len(),
    ensures
        final(ctx).schema == old(ctx).schema,
        rule_errors_model(final(ctx).errors@) == rule_errors_model(old(ctx).errors@)
            + spec_missing_args(fname@, decl@.skip(i as int), written@, pos),
    decreases decl@.len() - i,
{
    if i == decl.len() {
        proof {
            assert(decl@.skip(i as int) =~= Seq::<crate::schema::ArgumentMeta>::empty());
            assert(rule_errors_model(ctx.errors@) =~= rule_errors_model(ctx.errors@) + Seq::<
                RuleErrorV,
            >::empty());
        }
        return ;
    }
    proof {
        assert(decl@.skip(i as int)[0] == decl@[i as int]);
        assert(decl@.skip(i as int).drop_first() =~= decl@.skip(i as int + 1));
    }
    let ghost e0 = rule_errors_model(ctx.errors@);
    let d = &decl[i];
    let no_default = match &d.default_value {
        Option::Some(_) => false,
        Option::None => true,
    };
    if d.arg_type.is_non_null() && no_default {
        let missing = match crate::executor::written_value(written, d.name.as_str()) {
            Option::Some(_) => false,
            Option::None => true,
        };
        if missing {
            let display = crate::coercion::type_display(&d.arg_type);
            let msg = missing_arg_message(fname.as_str(), d.name.as_str(), display.as_str());
            let mut locs: Vec<SourcePosition> = Vec::new();
            locs.push(pos);
            ctx.report_error(msg.as_str(), locs.as_slice());
        }
    }
    arg_names_check_required(ctx, fname, decl, written, pos, i + 1);
    proof {
        assert(rule_errors_model(ctx.errors@) =~= rule_errors_model(old(ctx).errors@)
            + spec_missing_args(fname@, decl@.skip(i as int), written@, pos));
    }
}

/// Walk a selection list from position `i` on under the type `tname`,
/// checking every field's written and required arguments.
#[verifier::loop_isolation(false)]
fn arg_names_walk_sels(
    ctx: &mut ValidatorContext<'_>,
    tname: &String,
    sels: &Vec<Selection>,
    i: usize,
)
    requires
        i <= sels@.len(),
    ensures
        final(ctx).schema == old(ctx).schema,
        rule_errors_model(final(ctx).errors@) == rule_errors_model(old(ctx).errors@)
            + spec_arg_names_sels(old(ctx).schema.types@, tname@, sels@.skip(i as int)),
    decreases sels@.skip(i as int), 0int,
{
    if i == sels.len() {
        proof {
            assert(sels@.skip(i as int) =~= Seq::<Selection>::empty());
            assert(rule_errors_model(ctx.errors@) =~= rule_errors_model(ctx.errors@) + Seq::<
                RuleErrorV,
            >::empty());
        }
        return ;
    }
    proof {
        assert(sels@.skip(i as int)[0] == sels@[i as int]);
        assert(decreases_to!(sels@.skip(i as int) => sels@.skip(i as int)[0]));
        assert(sels@.skip(i as int).drop_first() =~= sels@.skip(i as int + 1));
        assert(decreases_to!(sels@.skip(i as int) => sels@.skip(i as int).drop_first()));
    }
    let ghost e0 = rule_errors_model(ctx.errors@);
    match &sels[i] {
        Selection::Field(f) => {
            match crate::executor::field_meta_of(
                ctx.schema,
                tname.as_str(),
                f.item.name.item.as_str(),
            ) {
                Option::Some(meta) => {
                    proof {
                        assert(f.item.arguments@.skip(0) =~= f.item.arguments@);
                        assert(meta.arguments@.skip(0) =~= meta.arguments@);
                    }
                    arg_names_check_written(
                        ctx,
                        tname,
                        &f.item.name.item,
                        &meta.arguments,
                        &f.item.arguments,
                        0,
                    );
                    arg_names_check_required(
                        ctx,
                        &f.item.name.item,
                        &meta.arguments,
                        &f.item.arguments,
                        f.start,
                        0,
                    );
                    let child_type = meta.field_type.innermost_name().to_owned();
                    match &f.item.selection_set {
                        Option::Some(ss) => {
                            proof {
                                assert(decreases_to!(sels@.skip(i as int)[0] => *f));
                                assert(decreases_to!(*f => f.item));
                                assert(decreases_to!(f.item => f.item.selection_set));
                                assert(decreases_to!(f.item.selection_set => *ss));
                                assert(decreases_to!(*ss => ss@));
                                assert(ss@.skip(0) =~= ss@);
                            }
                            arg_names_walk_sels(ctx, &child_type, ss, 0);
                        },
                        Option::None => {},
                    }
                },
                Option::None => {},
            }
            proof {
                assert(rule_errors_model(ctx.errors@) =~= e0 + spec_arg_names_sel(
                    ctx.schema.types@,
                    tname@,
                    sels@[i as int],
                ));
            }
        },
        Selection::FragmentSpread(_) => {
            proof {
                assert(rule_errors_model(ctx.errors@) =~= e0 + spec_arg_names_sel(
                    ctx.schema.types@,
                    tname@,
                    sels@[i as int],
                ));
            }
        },
        Selection::InlineFragment(il) => {
            let cond_type = match &il.item.type_condition {
                Option::Some(c) => c.item.clone(),
                Option::None => tname.clone(),
            };
            let isels = &il.item.selection_set;
            proof {
                assert(decreases_to!(sels@.skip(i as int)[0] => *il));
                assert(decreases_to!(*il => il.item));
                assert(decreases_to!(il.item => il.item.selection_set));
                assert(decreases_to!(il.item.selection_set => il.item.selection_set@));
                assert(il.item.selection_set@.skip(0) =~= il.item.selection_set@);
            }
            arg_names_walk_sels(ctx, &cond_type, isels, 0);
            proof {
                assert(rule_errors_model(ctx.errors@) =~= e0 + spec_arg_names_sel(
                    ctx.schema.types@,
                    tname@,
                    sels@[i as int],
                ));
            }
        },
    }
    arg_names_walk_sels(ctx, tname, sels, i + 1);
    proof {
        assert(rule_errors_model(ctx.errors@) =~= rule_errors_model(old(ctx).errors@)
            + spec_arg_names_sels(old(ctx).schema.types@, tname@, sels@.skip(i as int)));
    }
}

/// Run the argument-name rules over a whole document: every written
/// argument must be declared, and every required argument written.
#[verifier::loop_isolation(false)]
pub fn validate_argument_names(ctx: &mut ValidatorContext<'_>, doc: &Document)
    ensures
        final(ctx).schema == old(ctx).schema,
        rule_errors_model(final(ctx).errors@) == rule_errors_model(old(ctx).errors@)
            + spec_arg_names_document(*old(ctx).schema, doc@),
{
    let mut i: usize = 0;
    proof {
        assert(doc@.skip(0) =~= doc@);
    }
    let ghost e0 = rule_errors_model(ctx.errors@);
    while i < doc.len()
        invariant
            i <= doc@.len(),
            ctx.schema == old(ctx).schema,
            rule_errors_model(ctx.errors@) + spec_arg_names_document(
                *ctx.schema,
                doc@.skip(i as int),
            ) =~= e0 + spec_arg_names_document(*ctx.schema, doc@),
        decreases doc@.len() - i,
    {
        proof {
            assert(doc@.skip(i as int)[0] == doc@[i as int]);
            assert(doc@.skip(i as int).drop_first() =~= doc@.skip(i as int + 1));
        }
        match &doc[i] {
            Definition::Operation(op) => {
                let is_mutation = match op.item.operation_type {
                    crate::ast::OperationType::Mutation => true,
                    crate::ast::OperationType::Query => false,
                };
                let root = if is_mutation {
                    match &ctx.schema.mutation_type_name {
                        Option::Some(m) => m.clone(),
                        Option::None => ctx.schema.query_type_name.clone(),
                    }
                } else {
                    ctx.schema.query_type_name.clone()
                };
                proof {
                    assert(op.item.selection_set@.skip(0) =~= op.item.selection_set@);
                }
                arg_names_walk_sels(ctx, &root, &op.item.selection_set, 0);
            },
            Definition::Fragment(fr) => {
                proof {
                    assert(fr.item.selection_set@.skip(0) =~= fr.item.selection_set@);
                }
                arg_names_walk_sels(ctx, &fr.item.type_condition.item, &fr.item.selection_set, 0);
            },
        }
        i = i + 1;
        proof {
            assert(rule_errors_model(ctx.errors@) + spec_arg_names_document(
                *ctx.schema,
                doc@.skip(i as int),
            ) =~= e0 + spec_arg_names_document(*ctx.schema, doc@));
        }
    }
    proof {
        assert(doc@.skip(i as int) =~= Seq::<Definition>::empty());
        assert(rule_errors_model(ctx.errors@) =~= e0 + spec_arg_names_document(
            *ctx.schema,
            doc@,
        ));
    }
}


/// The message `There can be only one argument named "A"`.
pub open spec fn spec_duplicate_arg_message(a: Seq<char>) -> Seq<char> {
    ("There can be only one argument named \""@ + a) + "\""@
}

/// The message `There can be only one argument named "A"`.
pub fn duplicate_arg_message(a: &str) -> (r: String)
    ensures
        r@ == spec_duplicate_arg_message(a@),
{
    "There can be only one argument named \"".to_owned().concat(a).concat("\"")
}

/// The duplicate-argument errors of a written argument list from one
/// point on, given the names seen so far: one error per repeated name.
pub open spec fn spec_dup_args(
    written: Seq<(Spanning<String>, Spanning<crate::ast::InputValue>)>,
    seen: Seq<String>,
) -> Seq<RuleErrorV>
    decreases written,
{
    if written.len() == 0 {
        Seq::empty()
    } else {
        if spec_seen_contains(seen, written[0].0.item@) {
            seq![
                RuleErrorV {
                    message: spec_duplicate_arg_message(written[0].0.item@),
                    locations: seq![written[0].0.start],
                },
            ] + spec_dup_args(written.drop_first(), seen)
        } else {
            spec_dup_args(written.drop_first(), seen.push(written[0].0.item))
        }
    }
}

/// The duplicate-argument errors of one selection, in traversal order.
pub open spec fn spec_unique_args_sel(sel: Selection) -> Seq<RuleErrorV>
    decreases sel, 1int,
{
    match sel {
        Selection::Field(f) => spec_dup_args(f.item.arguments@, Seq::empty()) + (
        match f.item.selection_set {
            Option::Some(ss) => spec_unique_args_sels(ss@),
            Option::None => Seq::empty(),
        }),
        Selection::FragmentSpread(_) => Seq::empty(),
        Selection::InlineFragment(il) => spec_unique_args_sels(il.item.selection_set@),
    }
}

/// The duplicate-argument errors of a selection list, in order.
pub open spec fn spec_unique_args_sels(sels: Seq<Selection>) -> Seq<RuleErrorV>
    decreases sels, 0int,
{
    if sels.len() == 0 {
        Seq::empty()
    } else {
        spec_unique_args_sel(sels[0]) + spec_unique_args_sels(sels.drop_first())
    }
}

/// The duplicate-argument errors of a whole document, in order.
pub open spec fn spec_unique_args_document(defs: Seq<Definition>) -> Seq<RuleErrorV>
    decreases defs,
{
    if defs.len() == 0 {
        Seq::empty()
    } else {
        (match defs[0] {
            Definition::Operation(op) => spec_unique_args_sels(op.item.selection_set@),
            Definition::Fragment(fr) => spec_unique_args_sels(fr.item.selection_set@),
        }) + spec_unique_args_document(defs.drop_first())
    }
}

/// Walk a selection list from position `i` on, checking each field's
/// written argument names for repeats.
#[verifier::loop_isolation(false)]
fn unique_args_walk_sels(ctx: &mut ValidatorContext<'_>, sels: &Vec<Selection>, i: usize)
    requires
        i <= sels@.len(),
    ensures
        final(ctx).schema == old(ctx).schema,
        rule_errors_model(final(ctx).errors@) == rule_errors_model(old(ctx).errors@)
            + spec_unique_args_sels(sels@.skip(i as int)),
    decreases sels@.skip(i as int), 0int,
{
    if i == sels.len() {
        proof {
            assert(sels@.skip(i as int) =~= Seq::<Selection>::empty());
            assert(rule_errors_model(ctx.errors@) =~= rule_errors_model(ctx.errors@) + Seq::<
                RuleErrorV,
            >::empty());
        }
        return ;
    }
    proof {
        assert(sels@.skip(i as int)[0] == sels@[i as int]);
        assert(decreases_to!(sels@.skip(i as int) => sels@.skip(i as int)[0]));
        assert(sels@.skip(i as int).drop_first() =~= sels@.skip(i as int + 1));
        assert(decreases_to!(sels@.skip(i as int) => sels@.skip(i as int).drop_first()));
    }
    let ghost e0 = rule_errors_model(ctx.errors@);
    match &sels[i] {
        Selection::Field(f) => {
            let written = &f.item.arguments;
            let mut seen: Vec<String> = Vec::new();
            let mut j: usize = 0;
            proof {
                assert(written@.skip(0) =~= written@);
            }
            let ghost ef = rule_errors_model(ctx.errors@);
            while j < written.len()
                invariant
                    j <= written@.len(),
                    ctx.schema == old(ctx).schema,
                    rule_errors_model(ctx.errors@) + spec_dup_args(
                        written@.skip(j as int),
                        seen@,
                    ) =~= ef + spec_dup_args(written@, Seq::empty()),
                decreases written@.len() - j,
            {
                proof {
                    assert(written@.skip(j as int)[0] == written@[j as int]);
                    assert(written@.skip(j as int).drop_first() =~= written@.skip(j as int + 1));
                }
                let name = &written[j].0;
                let mut duplicate = false;
                let mut k: usize = 0;
                while k < seen.len()
                    invariant
                        k <= seen@.len(),
                        duplicate == exists|m: int|
                            0 <= m < k as int && seen@[m]@ == name.item@,
                    decreases seen@.len() - k,
                {
                    if crate::strutil::str_eq(seen[k].as_str(), name.item.as_str()) {
                        duplicate = true;
                    }
                    k = k + 1;
                }
                if duplicate {
                    let msg = duplicate_arg_message(name.item.as_str());
                    let mut locs: Vec<SourcePosition> = Vec::new();
                    locs.push(name.start);
                    ctx.report_error(msg.as_str(), locs.as_slice());
                } else {
                    seen.push(name.item.clone());
                }
                j = j + 1;
                proof {
                    assert(rule_errors_model(ctx.errors@) + spec_dup_args(
                        written@.skip(j as int),
                        seen@,
                    ) =~= ef + spec_dup_args(written@, Seq::empty()));
                }
            }
            proof {
                assert(written@.skip(j as int) =~= Seq::<
                    (Spanning<String>, Spanning<crate::ast::InputValue>),
                >::empty());
            }
            match &f.item.selection_set {
                Option::Some(ss) => {
                    proof {
                        assert(decreases_to!(sels@.skip(i as int)[0] => *f));
                        assert(decreases_to!(*f => f.item));
                        assert(decreases_to!(f.item => f.item.selection_set));
                        assert(decreases_to!(f.item.selection_set => *ss));
                        assert(decreases_to!(*ss => ss@));
                        assert(ss@.skip(0) =~= ss@);
                    }
                    unique_args_walk_sels(ctx, ss, 0);
                },
                Option::None => {},
            }
            proof {
                assert(rule_errors_model(ctx.errors@) =~= e0 + spec_unique_args_sel(
                    sels@[i as int],
                ));
            }
        },
        Selection::FragmentSpread(_) => {
            proof {
                assert(rule_errors_model(ctx.errors@) =~= e0 + spec_unique_args_sel(
                    sels@[i as int],
                ));
            }
        },
        Selection::InlineFragment(il) => {
            let isels = &il.item.selection_set;
            proof {
                assert(decreases_to!(sels@.skip(i as int)[0] => *il));
                assert(decreases_to!(*il => il.item));
                assert(decreases_to!(il.item => il.item.selection_set));
                assert(decreases_to!(il.item.selection_set => il.item.selection_set@));
                assert(il.item.selection_set@.skip(0) =~= il.item.selection_set@);
            }
            unique_args_walk_sels(ctx, isels, 0);
            proof {
                assert(rule_errors_model(ctx.errors@) =~= e0 + spec_unique_args_sel(
                    sels@[i as int],
                ));
            }
        },
    }
    unique_args_walk_sels(ctx, sels, i + 1);
    proof {
        assert(rule_errors_model(ctx.errors@) =~= rule_errors_model(old(ctx).errors@)
            + spec_unique_args_sels(sels@.skip(i as int)));
    }
}

/// Run the unique-argument-names rule: within one field, every written
/// argument name stands once.
#[verifier::loop_isolation(false)]
pub fn validate_unique_argument_names(ctx: &mut ValidatorContext<'_>, doc: &Document)
    ensures
        final(ctx).schema == old(ctx).schema,
        rule_errors_model(final(ctx).errors@) == rule_errors_model(old(ctx).errors@)
            + spec_unique_args_document(doc@),
{
    let mut i: usize = 0;
    proof {
        assert(doc@.skip(0) =~= doc@);
    }
    let ghost e0 = rule_errors_model(ctx.errors@);
    while i < doc.len()
        invariant
            i <= doc@.len(),
            ctx.schema == old(ctx).schema,
            rule_errors_model(ctx.errors@) + spec_unique_args_document(doc@.skip(i as int)) =~= e0
                + spec_unique_args_document(doc@),
        decreases doc@.len() - i,
    {
        proof {
            assert(doc@.skip(i as int)[0] == doc@[i as int]);
            assert(doc@.skip(i as int).drop_first() =~= doc@.skip(i as int + 1));
        }
        match &doc[i] {
            Definition::Operation(op) => {
                proof {
                    assert(op.item.selection_set@.skip(0) =~= op.item.selection_set@);
                }
                unique_args_walk_sels(ctx, &op.item.selection_set, 0);
            },
            Definition::Fragment(fr) => {
                proof {
                    assert(fr.item.selection_set@.skip(0) =~= fr.item.selection_set@);
                }
                unique_args_walk_sels(ctx, &fr.item.selection_set, 0);
            },
        }
        i = i + 1;
        proof {
            assert(rule_errors_model(ctx.errors@) + spec_unique_args_document(
                doc@.skip(i as int),
            ) =~= e0 + spec_unique_args_document(doc@));
        }
    }
    proof {
        assert(doc@.skip(i as int) =~= Seq::<Definition>::empty());
        assert(rule_errors_model(ctx.errors@) =~= e0 + spec_unique_args_document(doc@));
    }
}

} // verus!
