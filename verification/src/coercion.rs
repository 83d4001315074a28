//! Input coercion: checking literal values against declared types, and
//! coercing supplied values (variables, defaults) to a type's normal form,
//! with the exact failure message for each mismatch.

use vstd::prelude::*;
use vstd::string::StringExecFns;

use crate::ast::InputValue;
use crate::ast::InputValueV;
use crate::ast::TypeRef;
use crate::ast::input_value_fields_model;
use crate::ast::input_value_list_model;
use crate::ast::lemma_input_value_fields_model;
use crate::ast::lemma_input_value_list_model;
use crate::schema::ArgumentMeta;
use crate::schema::MetaType;
use crate::schema::spec_lookup;
use crate::ast::input_value_model;
use crate::sourcepos::SourcePosition;
use crate::sourcepos::Spanning;
use crate::sourcepos::SpanningV;
use crate::strutil::str_eq;

verus! {

broadcast use vstd::std_specs::vec::group_vec_axioms;

/// How a type reference is rendered in error messages: `Name`, `Name!`,
/// `[Inner]`, `[Inner]!`.
pub open spec fn spec_type_display(t: TypeRef) -> Seq<char>
    decreases t,
{
    match t {
        TypeRef::Named(n) => n@,
        TypeRef::NonNullNamed(n) => n@ + "!"@,
        TypeRef::List(inner) => ("["@ + spec_type_display(*inner)) + "]"@,
        TypeRef::NonNullList(inner) => ("["@ + spec_type_display(*inner)) + "]!"@,
    }
}

/// Render a type reference for an error message.
pub fn type_display(t: &TypeRef) -> (r: String)
    ensures
        r@ == spec_type_display(*t),
    decreases *t,
{
    match t {
        TypeRef::Named(n) => n.clone(),
        TypeRef::NonNullNamed(n) => n.clone().concat("!"),
        TypeRef::List(inner) => {
            let s = type_display(inner);
            "[".to_owned().concat(s.as_str()).concat("]")
        },
        TypeRef::NonNullList(inner) => {
            let s = type_display(inner);
            "[".to_owned().concat(s.as_str()).concat("]!")
        },
    }
}

/// How many list wrappers a type reference nests: the bound that list
/// coercion recursion unwinds.
pub open spec fn type_depth(t: TypeRef) -> nat
    decreases t,
{
    match t {
        TypeRef::Named(_) => 0,
        TypeRef::NonNullNamed(_) => 0,
        TypeRef::List(inner) => 1 + type_depth(*inner),
        TypeRef::NonNullList(inner) => 1 + type_depth(*inner),
    }
}

/// Whether `s` is one of the strings in `values`.
pub open spec fn spec_contains_string(values: Seq<String>, s: Seq<char>) -> bool {
    exists|i: int| 0 <= i < values.len() && values[i]@ == s
}

/// Whether `s` is one of the strings in `values`.
pub fn contains_string(values: &Vec<String>, s: &str) -> (r: bool)
    ensures
        r == spec_contains_string(values@, s@),
{
    let mut i: usize = 0;
    while i < values.len()
        invariant
            i <= values@.len(),
            forall|j: int| 0 <= j < i as int ==> values@[j]@ != s@,
        decreases values@.len() - i,
    {
        if str_eq(values[i].as_str(), s) {
            return true;
        }
        i = i + 1;
    }
    false
}

/// The declared argument (or input object field) named `name`, if any.
pub open spec fn spec_arg_by_name(args: Seq<ArgumentMeta>, name: Seq<char>) -> Option<ArgumentMeta>
    decreases args,
{
    if args.len() == 0 {
        Option::None
    } else if args[0].name@ == name {
        Option::Some(args[0])
    } else {
        spec_arg_by_name(args.drop_first(), name)
    }
}

/// The declared argument (or input object field) named `name`, if any.
pub fn arg_by_name<'a>(args: &'a Vec<ArgumentMeta>, name: &str) -> (r: Option<&'a ArgumentMeta>)
    ensures
        match r {
            Option::Some(a) => spec_arg_by_name(args@, name@) == Option::Some(*a),
            Option::None => spec_arg_by_name(args@, name@) matches Option::None,
        },
{
    let mut i: usize = 0;
    proof {
        assert(args@.skip(0) =~= args@);
    }
    while i < args.len()
        invariant
            i <= args@.len(),
            spec_arg_by_name(args@, name@) == spec_arg_by_name(args@.skip(i as int), name@),
        decreases args@.len() - i,
    {
        proof {
            assert(args@.skip(i as int)[0] == args@[i as int]);
            assert(args@.skip(i as int).drop_first() =~= args@.skip(i as int + 1));
        }
        if str_eq(args[i].name.as_str(), name) {
            return Option::Some(&args[i]);
        }
        i = i + 1;
    }
    proof {
        assert(args@.skip(i as int) =~= Seq::empty());
    }
    Option::None
}

/// The message `Expected "D", found W.`.
pub open spec fn spec_expected_found(d: Seq<char>, w: Seq<char>) -> Seq<char> {
    ((("Expected \""@ + d) + "\", found "@) + w) + "."@
}

/// The message `Expected "D", found W.`.
pub fn expected_found(d: &str, w: &str) -> (r: String)
    ensures
        r@ == spec_expected_found(d@, w@),
{
    "Expected \"".to_owned().concat(d).concat("\", found ").concat(w).concat(".")
}

/// The message `Invalid value for enum "N".`.
pub open spec fn spec_invalid_enum(n: Seq<char>) -> Seq<char> {
    ("Invalid value for enum \""@ + n) + "\"."@
}

/// The message `Invalid value for enum "N".`.
pub fn invalid_enum(n: &str) -> (r: String)
    ensures
        r@ == spec_invalid_enum(n@),
{
    "Invalid value for enum \"".to_owned().concat(n).concat("\".")
}

/// The message `Unknown field "K".`.
pub open spec fn spec_unknown_field(k: Seq<char>) -> Seq<char> {
    ("Unknown field \""@ + k) + "\"."@
}

/// The message `Unknown field "K".`.
pub fn unknown_field(k: &str) -> (r: String)
    ensures
        r@ == spec_unknown_field(k@),
{
    "Unknown field \"".to_owned().concat(k).concat("\".")
}

/// What coercion yields: the value in normal form, or the exact message
/// explaining the mismatch.
pub enum CoerceOutcome {
    Coerced(InputValueV),
    Failed(Seq<char>),
}

/// What coercing each element of a list yields.
pub enum ItemsOutcome {
    Done(Seq<SpanningV<InputValueV>>),
    Failed(Seq<char>),
}

/// What coercing each field of an object yields.
pub enum FieldsOutcome {
    Done(Seq<(SpanningV<Seq<char>>, SpanningV<InputValueV>)>),
    Failed(Seq<char>),
}

/// Coercion of a non-null, non-variable value against a named type. A
/// string supplied for an enum type is accepted and normalised to an enum
/// value; the built-in scalars accept exactly their own shapes, with
/// `Float` widening ints and `ID` taking either a string or an int.
pub open spec fn spec_coerce_named(
    types: Seq<(String, MetaType)>,
    name: Seq<char>,
    v: InputValue,
    whole: Seq<char>,
) -> CoerceOutcome
    decreases v, 0int, 0int,
{
    match spec_lookup(types, name) {
        Option::None => CoerceOutcome::Failed(spec_expected_found(whole, "an unknown type"@)),
        Option::Some(meta) => match meta {
            MetaType::Scalar { name: sname } => {
                if sname@ == "Int"@ {
                    if v matches InputValue::Int(_) {
                        CoerceOutcome::Coerced(input_value_model(v))
                    } else {
                        CoerceOutcome::Failed(spec_expected_found(whole, "not an int"@))
                    }
                } else if sname@ == "Float"@ {
                    if v matches InputValue::Int(_) || v matches InputValue::Float(_) {
                        CoerceOutcome::Coerced(input_value_model(v))
                    } else {
                        CoerceOutcome::Failed(spec_expected_found(whole, "not a float"@))
                    }
                } else if sname@ == "String"@ {
                    if v matches InputValue::Str(_) {
                        CoerceOutcome::Coerced(input_value_model(v))
                    } else {
                        CoerceOutcome::Failed(spec_expected_found(whole, "not a string"@))
                    }
                } else if sname@ == "Boolean"@ {
                    if v matches InputValue::Boolean(_) {
                        CoerceOutcome::Coerced(input_value_model(v))
                    } else {
                        CoerceOutcome::Failed(spec_expected_found(whole, "not a boolean"@))
                    }
                } else if sname@ == "ID"@ {
                    if v matches InputValue::Str(_) || v matches InputValue::Int(_) {
                        CoerceOutcome::Coerced(input_value_model(v))
                    } else {
                        CoerceOutcome::Failed(spec_expected_found(whole, "not a string or int"@))
                    }
                } else {
                    if v matches InputValue::Int(_) || v matches InputValue::Float(_) || v
                        matches InputValue::Str(_) || v matches InputValue::Boolean(_) {
                        CoerceOutcome::Coerced(input_value_model(v))
                    } else {
                        CoerceOutcome::Failed(spec_expected_found(whole, "not a scalar"@))
                    }
                }
            },
            MetaType::Enum { values, .. } => match v {
                InputValue::Enum(s) => if spec_contains_string(values@, s@) {
                    CoerceOutcome::Coerced(InputValueV::Enum(s@))
                } else {
                    CoerceOutcome::Failed(spec_invalid_enum(name))
                },
                InputValue::Str(s) => if spec_contains_string(values@, s@) {
                    CoerceOutcome::Coerced(InputValueV::Enum(s@))
                } else {
                    CoerceOutcome::Failed(spec_invalid_enum(name))
                },
                _ => CoerceOutcome::Failed(spec_expected_found(whole, "not a string or enum"@)),
            },
            MetaType::InputObject { fields, .. } => match v {
                InputValue::Object(fs) => match spec_coerce_fields(types, fields@, fs@) {
                    FieldsOutcome::Done(out) => CoerceOutcome::Coerced(InputValueV::Object(out)),
                    FieldsOutcome::Failed(m) => CoerceOutcome::Failed(m),
                },
                _ => CoerceOutcome::Failed(spec_expected_found(whole, "not an object"@)),
            },
            _ => CoerceOutcome::Failed(spec_expected_found(whole, "not an input type"@)),
        },
    }
}

/// Coercion of a supplied value against a declared type. A variable
/// reference is passed through untouched; null is accepted at every
/// nullable position and refused at every non-null one; a non-list value
/// supplied for a list type is wrapped as a one-element list.
pub open spec fn spec_coerce(types: Seq<(String, MetaType)>, t: TypeRef, v: InputValue) -> CoerceOutcome
    decreases v, type_depth(t), 1int,
{
    if (v matches InputValue::Variable(_)) {
        CoerceOutcome::Coerced(input_value_model(v))
    } else {
        match t {
            TypeRef::Named(n) => {
                if (v matches InputValue::Null) {
                    CoerceOutcome::Coerced(InputValueV::Null)
                } else {
                    spec_coerce_named(types, n@, v, n@)
                }
            },
            TypeRef::NonNullNamed(n) => {
                if (v matches InputValue::Null) {
                    CoerceOutcome::Failed(spec_expected_found(n@ + "!"@, "null"@))
                } else {
                    spec_coerce_named(types, n@, v, n@)
                }
            },
            TypeRef::List(inner) => {
                if (v matches InputValue::Null) {
                    CoerceOutcome::Coerced(InputValueV::Null)
                } else {
                    spec_coerce_list(types, *inner, v)
                }
            },
            TypeRef::NonNullList(inner) => {
                if (v matches InputValue::Null) {
                    CoerceOutcome::Failed(
                        spec_expected_found(("["@ + spec_type_display(*inner)) + "]!"@, "null"@),
                    )
                } else {
                    spec_coerce_list(types, *inner, v)
                }
            },
        }
    }
}

/// Coercion of a non-null value against the element type of a list: a
/// list is coerced element by element, anything else is wrapped as a
/// one-element list after coercion.
pub open spec fn spec_coerce_list(
    types: Seq<(String, MetaType)>,
    inner: TypeRef,
    v: InputValue,
) -> CoerceOutcome
    decreases v, type_depth(inner), 3int,
{
    match v {
        InputValue::List(items) => match spec_coerce_items(types, inner, items@) {
            ItemsOutcome::Done(out) => CoerceOutcome::Coerced(InputValueV::List(out)),
            ItemsOutcome::Failed(m) => CoerceOutcome::Failed(m),
        },
        _ => match spec_coerce(types, inner, v) {
            CoerceOutcome::Coerced(w) => CoerceOutcome::Coerced(
                InputValueV::List(
                    seq![
                        SpanningV {
                            item: w,
                            start: SourcePosition { index: 0, line: 0, col: 0 },
                            end: SourcePosition { index: 0, line: 0, col: 0 },
                        },
                    ],
                ),
            ),
            CoerceOutcome::Failed(m) => CoerceOutcome::Failed(m),
        },
    }
}

/// Element-by-element coercion of a list body; the first failure wins.
pub open spec fn spec_coerce_items(
    types: Seq<(String, MetaType)>,
    inner: TypeRef,
    items: Seq<Spanning<InputValue>>,
) -> ItemsOutcome
    decreases items, type_depth(inner), 2int,
{
    if items.len() == 0 {
        ItemsOutcome::Done(Seq::empty())
    } else {
        match spec_coerce(types, inner, items[0].item) {
            CoerceOutcome::Coerced(w) => match spec_coerce_items(types, inner, items.drop_first()) {
                ItemsOutcome::Done(rest) => ItemsOutcome::Done(
                    seq![SpanningV { item: w, start: items[0].start, end: items[0].end }] + rest,
                ),
                ItemsOutcome::Failed(m) => ItemsOutcome::Failed(m),
            },
            CoerceOutcome::Failed(m) => ItemsOutcome::Failed(m),
        }
    }
}

/// Field-by-field coercion of an object body against the declared fields:
/// each supplied field must be declared, and its value is coerced against
/// the declared type. The first failure wins.
pub open spec fn spec_coerce_fields(
    types: Seq<(String, MetaType)>,
    decl: Seq<ArgumentMeta>,
    fs: Seq<(Spanning<String>, Spanning<InputValue>)>,
) -> FieldsOutcome
    decreases fs, 0int, 0int,
{
    if fs.len() == 0 {
        FieldsOutcome::Done(Seq::empty())
    } else {
        match spec_arg_by_name(decl, fs[0].0.item@) {
            Option::None => FieldsOutcome::Failed(spec_unknown_field(fs[0].0.item@)),
            Option::Some(arg) => match spec_coerce(types, arg.arg_type, fs[0].1.item) {
                CoerceOutcome::Coerced(w) => match spec_coerce_fields(types, decl, fs.drop_first()) {
                    FieldsOutcome::Done(rest) => FieldsOutcome::Done(
                        seq![
                            (
                                SpanningV {
                                    item: fs[0].0.item@,
                                    start: fs[0].0.start,
                                    end: fs[0].0.end,
                                },
                                SpanningV { item: w, start: fs[0].1.start, end: fs[0].1.end },
                            ),
                        ] + rest,
                    ),
                    FieldsOutcome::Failed(m) => FieldsOutcome::Failed(m),
                },
                CoerceOutcome::Failed(m) => FieldsOutcome::Failed(m),
            },
        }
    }
}


/// Coerce `v` against the element type of a list (see `spec_coerce_list`).
fn coerce_list_val(types: &Vec<(String, MetaType)>, inner: &TypeRef, v: &InputValue) -> (r: Result<
    InputValue,
    String,
>)
    ensures
        r matches Ok(x) ==> spec_coerce_list(types@, *inner, *v) == CoerceOutcome::Coerced(x@),
        r matches Err(m) ==> spec_coerce_list(types@, *inner, *v) == CoerceOutcome::Failed(m@),
    decreases *v, type_depth(*inner), 3int,
{
    match v {
        InputValue::List(items) => {
            proof {
                assert(decreases_to!(*v => v->List_0));
                assert(v->List_0 == *items);
                assert(decreases_to!(*items => items@));
                assert(items@.skip(0) =~= items@);
            }
            match coerce_items_val(types, inner, items, 0) {
                Ok(out) => Ok(InputValue::List(out)),
                Err(m) => Err(m),
            }
        },
        _ => {
            let w = coerce_value(types, inner, v)?;
            let mut out: Vec<Spanning<InputValue>> = Vec::new();
            let origin = SourcePosition::origin();
            let sp = Spanning { item: w, start: origin, end: origin };
            let ghost gmodel = input_value_model(sp.item);
            out.push(sp);
            proof {
                assert(out@.drop_first() =~= Seq::empty());
                lemma_input_value_list_model(out@);
                assert(input_value_list_model(out@) =~= seq![
                    SpanningV {
                        item: gmodel,
                        start: SourcePosition { index: 0, line: 0, col: 0 },
                        end: SourcePosition { index: 0, line: 0, col: 0 },
                    },
                ]);
            }
            Ok(InputValue::List(out))
        },
    }
}

/// Coerce every element of a list body from position `i` on (see
/// `spec_coerce_items`).
fn coerce_items_val(
    types: &Vec<(String, MetaType)>,
    inner: &TypeRef,
    items: &Vec<Spanning<InputValue>>,
    i: usize,
) -> (r: Result<Vec<Spanning<InputValue>>, String>)
    requires
        i <= items@.len(),
    ensures
        r matches Ok(out) ==> spec_coerce_items(types@, *inner, items@.skip(i as int))
            == ItemsOutcome::Done(input_value_list_model(out@)),
        r matches Err(m) ==> spec_coerce_items(types@, *inner, items@.skip(i as int))
            == ItemsOutcome::Failed(m@),
    decreases items@.skip(i as int), type_depth(*inner), 2int,
{
    if i == items.len() {
        proof {
            assert(items@.skip(i as int) =~= Seq::<Spanning<InputValue>>::empty());
            assert(input_value_list_model(items@.skip(i as int)) =~= Seq::<
                SpanningV<InputValueV>,
            >::empty());
        }
        return Ok(Vec::new());
    }
    proof {
        assert(items@.skip(i as int)[0] == items@[i as int]);
        assert(decreases_to!(items@.skip(i as int) => items@.skip(i as int)[0]));
        assert(decreases_to!(items@.skip(i as int)[0] => items@.skip(i as int)[0].item));
        assert(items@.skip(i as int).drop_first() =~= items@.skip(i as int + 1));
        assert(decreases_to!(items@.skip(i as int) => items@.skip(i as int).drop_first()));
    }
    let head = coerce_value(types, inner, &items[i].item)?;
    let rest = coerce_items_val(types, inner, items, i + 1)?;
    let ghost grest = rest@;
    let mut out = rest;
    let sp = Spanning { item: head, start: items[i].start, end: items[i].end };
    let ghost ghead = input_value_model(sp.item);
    out.insert(0, sp);
    proof {
        assert(out@.drop_first() =~= grest);
        lemma_input_value_list_model(out@);
        lemma_input_value_list_model(grest);
        assert(input_value_list_model(out@) =~= seq![
            SpanningV { item: ghead, start: items@[i as int].start, end: items@[i as int].end },
        ] + input_value_list_model(grest)) by {
            assert forall|j: int| 0 <= j < out@.len() implies input_value_list_model(out@)[j] == (
            seq![
                SpanningV {
                    item: ghead,
                    start: items@[i as int].start,
                    end: items@[i as int].end,
                },
            ] + input_value_list_model(grest))[j] by {
                if j > 0 {
                    assert(out@[j] == grest[j - 1]);
                }
            }
        }
    }
    Ok(out)
}

/// Coerce every supplied object field from position `i` on (see
/// `spec_coerce_fields`).
fn coerce_fields_val(
    types: &Vec<(String, MetaType)>,
    decl: &Vec<ArgumentMeta>,
    fs: &Vec<(Spanning<String>, Spanning<InputValue>)>,
    i: usize,
) -> (r: Result<Vec<(Spanning<String>, Spanning<InputValue>)>, String>)
    requires
        i <= fs@.len(),
    ensures
        r matches Ok(out) ==> spec_coerce_fields(types@, decl@, fs@.skip(i as int))
            == FieldsOutcome::Done(input_value_fields_model(out@)),
        r matches Err(m) ==> spec_coerce_fields(types@, decl@, fs@.skip(i as int))
            == FieldsOutcome::Failed(m@),
    decreases fs@.skip(i as int), 0int, 0int,
{
    if i == fs.len() {
        proof {
            assert(fs@.skip(i as int) =~= Seq::<(Spanning<String>, Spanning<InputValue>)>::empty());
            assert(input_value_fields_model(fs@.skip(i as int)) =~= Seq::<
                (SpanningV<Seq<char>>, SpanningV<InputValueV>),
            >::empty());
        }
        return Ok(Vec::new());
    }
    proof {
        assert(fs@.skip(i as int)[0] == fs@[i as int]);
        assert(decreases_to!(fs@.skip(i as int) => fs@.skip(i as int)[0]));
        assert(decreases_to!(fs@.skip(i as int)[0] => fs@.skip(i as int)[0].1));
        assert(decreases_to!(fs@.skip(i as int)[0].1 => fs@.skip(i as int)[0].1.item));
        assert(fs@.skip(i as int).drop_first() =~= fs@.skip(i as int + 1));
        assert(decreases_to!(fs@.skip(i as int) => fs@.skip(i as int).drop_first()));
    }
    let key = &fs[i].0;
    let arg = match arg_by_name(decl, key.item.as_str()) {
        Option::Some(a) => a,
        Option::None => {
            return Err(unknown_field(key.item.as_str()));
        },
    };
    let head = coerce_value(types, &arg.arg_type, &fs[i].1.item)?;
    let rest = coerce_fields_val(types, decl, fs, i + 1)?;
    let ghost grest = rest@;
    let mut out = rest;
    let pair = (
        Spanning { item: key.item.clone(), start: key.start, end: key.end },
        Spanning { item: head, start: fs[i].1.start, end: fs[i].1.end },
    );
    let ghost ghead = input_value_model(pair.1.item);
    out.insert(0, pair);
    proof {
        assert(out@.drop_first() =~= grest);
        lemma_input_value_fields_model(out@);
        lemma_input_value_fields_model(grest);
        assert(input_value_fields_model(out@) =~= seq![
            (
                SpanningV {
                    item: fs@[i as int].0.item@,
                    start: fs@[i as int].0.start,
                    end: fs@[i as int].0.end,
                },
                SpanningV { item: ghead, start: fs@[i as int].1.start, end: fs@[i as int].1.end },
            ),
        ] + input_value_fields_model(grest)) by {
            assert forall|j: int| 0 <= j < out@.len() implies input_value_fields_model(out@)[j]
                == (seq![
                (
                    SpanningV {
                        item: fs@[i as int].0.item@,
                        start: fs@[i as int].0.start,
                        end: fs@[i as int].0.end,
                    },
                    SpanningV {
                        item: ghead,
                        start: fs@[i as int].1.start,
                        end: fs@[i as int].1.end,
                    },
                ),
            ] + input_value_fields_model(grest))[j] by {
                if j > 0 {
                    assert(out@[j] == grest[j - 1]);
                }
            }
        }
    }
    Ok(out)
}

/// Coerce a value against a named type (see `spec_coerce_named`).
fn coerce_named(
    types: &Vec<(String, MetaType)>,
    name: &str,
    v: &InputValue,
    whole: &str,
) -> (r: Result<InputValue, String>)
    ensures
        r matches Ok(x) ==> spec_coerce_named(types@, name@, *v, whole@) == CoerceOutcome::Coerced(
            x@,
        ),
        r matches Err(m) ==> spec_coerce_named(types@, name@, *v, whole@)
            == CoerceOutcome::Failed(m@),
    decreases *v, 0int, 0int,
{
    let meta = match crate::schema::lookup_in(types, name) {
        Option::Some(m) => m,
        Option::None => {
            return Err(expected_found(whole, "an unknown type"));
        },
    };
    match meta {
        MetaType::Scalar { name: sname } => {
            if str_eq(sname.as_str(), "Int") {
                match v {
                    InputValue::Int(_) => Ok(v.duplicate()),
                    _ => Err(expected_found(whole, "not an int")),
                }
            } else if str_eq(sname.as_str(), "Float") {
                match v {
                    InputValue::Int(_) => Ok(v.duplicate()),
                    InputValue::Float(_) => Ok(v.duplicate()),
                    _ => Err(expected_found(whole, "not a float")),
                }
            } else if str_eq(sname.as_str(), "String") {
                match v {
                    InputValue::Str(_) => Ok(v.duplicate()),
                    _ => Err(expected_found(whole, "not a string")),
                }
            } else if str_eq(sname.as_str(), "Boolean") {
                match v {
                    InputValue::Boolean(_) => Ok(v.duplicate()),
                    _ => Err(expected_found(whole, "not a boolean")),
                }
            } else if str_eq(sname.as_str(), "ID") {
                match v {
                    InputValue::Str(_) => Ok(v.duplicate()),
                    InputValue::Int(_) => Ok(v.duplicate()),
                    _ => Err(expected_found(whole, "not a string or int")),
                }
            } else {
                match v {
                    InputValue::Int(_) => Ok(v.duplicate()),
                    InputValue::Float(_) => Ok(v.duplicate()),
                    InputValue::Str(_) => Ok(v.duplicate()),
                    InputValue::Boolean(_) => Ok(v.duplicate()),
                    _ => Err(expected_found(whole, "not a scalar")),
                }
            }
        },
        MetaType::Enum { values, .. } => match v {
            InputValue::Enum(s) => {
                if contains_string(values, s.as_str()) {
                    Ok(InputValue::Enum(s.clone()))
                } else {
                    Err(invalid_enum(name))
                }
            },
            InputValue::Str(s) => {
                if contains_string(values, s.as_str()) {
                    Ok(InputValue::Enum(s.clone()))
                } else {
                    Err(invalid_enum(name))
                }
            },
            _ => Err(expected_found(whole, "not a string or enum")),
        },
        MetaType::InputObject { fields, .. } => match v {
            InputValue::Object(fs) => {
                proof {
                    assert(decreases_to!(*v => v->Object_0));
                    assert(v->Object_0 == *fs);
                    assert(decreases_to!(*fs => fs@));
                    assert(fs@.skip(0) =~= fs@);
                }
                match coerce_fields_val(types, fields, fs, 0) {
                    Ok(out) => Ok(InputValue::Object(out)),
                    Err(m) => Err(m),
                }
            },
            _ => Err(expected_found(whole, "not an object")),
        },
        _ => Err(expected_found(whole, "not an input type")),
    }
}

/// Coerce a supplied value against a declared type, yielding the value in
/// normal form or the exact message explaining the mismatch (see
/// `spec_coerce`).
pub fn coerce_value(types: &Vec<(String, MetaType)>, t: &TypeRef, v: &InputValue) -> (r: Result<
    InputValue,
    String,
>)
    ensures
        r matches Ok(x) ==> spec_coerce(types@, *t, *v) == CoerceOutcome::Coerced(x@),
        r matches Err(m) ==> spec_coerce(types@, *t, *v) == CoerceOutcome::Failed(m@),
    decreases *v, type_depth(*t), 1int,
{
    if let InputValue::Variable(_) = v {
        return Ok(v.duplicate());
    }
    match t {
        TypeRef::Named(n) => match v {
            InputValue::Null => Ok(InputValue::Null),
            _ => coerce_named(types, n.as_str(), v, n.as_str()),
        },
        TypeRef::NonNullNamed(n) => match v {
            InputValue::Null => {
                let d = type_display(t);
                Err(expected_found(d.as_str(), "null"))
            },
            _ => coerce_named(types, n.as_str(), v, n.as_str()),
        },
        TypeRef::List(inner) => match v {
            InputValue::Null => Ok(InputValue::Null),
            _ => coerce_list_val(types, inner, v),
        },
        TypeRef::NonNullList(inner) => match v {
            InputValue::Null => {
                let d = type_display(t);
                Err(expected_found(d.as_str(), "null"))
            },
            _ => coerce_list_val(types, inner, v),
        },
    }
}


/// Whether an object literal has a field named `k`.
pub open spec fn spec_obj_has_key(fs: Seq<(Spanning<String>, Spanning<InputValue>)>, k: Seq<
    char,
>) -> bool {
    exists|i: int| 0 <= i < fs.len() && fs[i].0.item@ == k
}

/// Whether every non-null declared field without a default is supplied.
pub open spec fn spec_required_present(
    decl: Seq<ArgumentMeta>,
    fs: Seq<(Spanning<String>, Spanning<InputValue>)>,
) -> bool {
    forall|i: int|
        0 <= i < decl.len() && (#[trigger] decl[i]).arg_type.spec_is_non_null() && (decl[i].default_value
            matches Option::None) ==> spec_obj_has_key(fs, decl[i].name@)
}

/// Validity of a non-null, non-variable literal against a named type.
/// Unlike supplied-value coercion, an enum literal must be written as an
/// enum token: a string literal is refused. A name that is not catalogued
/// passes here, for the unknown-type rule alone to report.
pub open spec fn spec_valid_literal_named(
    types: Seq<(String, MetaType)>,
    name: Seq<char>,
    v: InputValue,
) -> bool
    decreases v, 0int, 0int,
{
    match spec_lookup(types, name) {
        Option::None => true,
        Option::Some(meta) => match meta {
            MetaType::Scalar { name: sname } => {
                if sname@ == "Int"@ {
                    v matches InputValue::Int(_)
                } else if sname@ == "Float"@ {
                    v matches InputValue::Int(_) || v matches InputValue::Float(_)
                } else if sname@ == "String"@ {
                    v matches InputValue::Str(_)
                } else if sname@ == "Boolean"@ {
                    v matches InputValue::Boolean(_)
                } else if sname@ == "ID"@ {
                    v matches InputValue::Str(_) || v matches InputValue::Int(_)
                } else {
                    v matches InputValue::Int(_) || v matches InputValue::Float(_) || v
                        matches InputValue::Str(_) || v matches InputValue::Boolean(_)
                }
            },
            MetaType::Enum { values, .. } => match v {
                InputValue::Enum(s) => spec_contains_string(values@, s@),
                _ => false,
            },
            MetaType::InputObject { fields, .. } => match v {
                InputValue::Object(fs) => spec_valid_obj_fields(types, fields@, fs@)
                    && spec_required_present(fields@, fs@),
                _ => false,
            },
            _ => false,
        },
    }
}

/// Validity of a literal value against a declared type, as the
/// argument-value rule checks it. A variable reference is always taken as
/// valid here: variable checking has its own pass.
pub open spec fn spec_valid_literal(
    types: Seq<(String, MetaType)>,
    t: TypeRef,
    v: InputValue,
) -> bool
    decreases v, type_depth(t), 1int,
{
    if (v matches InputValue::Variable(_)) {
        true
    } else {
        match t {
            TypeRef::Named(n) => (v matches InputValue::Null) || spec_valid_literal_named(
                types,
                n@,
                v,
            ),
            TypeRef::NonNullNamed(n) => !(v matches InputValue::Null)
                && spec_valid_literal_named(types, n@, v),
            TypeRef::List(inner) => (v matches InputValue::Null) || spec_valid_literal_list(
                types,
                *inner,
                v,
            ),
            TypeRef::NonNullList(inner) => !(v matches InputValue::Null)
                && spec_valid_literal_list(types, *inner, v),
        }
    }
}

/// Validity of a non-null literal against the element type of a list: a
/// list element by element, anything else as a single element.
pub open spec fn spec_valid_literal_list(
    types: Seq<(String, MetaType)>,
    inner: TypeRef,
    v: InputValue,
) -> bool
    decreases v, type_depth(inner), 3int,
{
    match v {
        InputValue::List(items) => spec_valid_items(types, inner, items@),
        _ => spec_valid_literal(types, inner, v),
    }
}

/// Validity of every element of a list literal.
pub open spec fn spec_valid_items(
    types: Seq<(String, MetaType)>,
    inner: TypeRef,
    items: Seq<Spanning<InputValue>>,
) -> bool
    decreases items, type_depth(inner), 2int,
{
    if items.len() == 0 {
        true
    } else {
        spec_valid_literal(types, inner, items[0].item) && spec_valid_items(
            types,
            inner,
            items.drop_first(),
        )
    }
}

/// Validity of every supplied field of an object literal: each must be
/// declared, with a valid value.
pub open spec fn spec_valid_obj_fields(
    types: Seq<(String, MetaType)>,
    decl: Seq<ArgumentMeta>,
    fs: Seq<(Spanning<String>, Spanning<InputValue>)>,
) -> bool
    decreases fs, 0int, 0int,
{
    if fs.len() == 0 {
        true
    } else {
        match spec_arg_by_name(decl, fs[0].0.item@) {
            Option::None => false,
            Option::Some(arg) => spec_valid_literal(types, arg.arg_type, fs[0].1.item)
                && spec_valid_obj_fields(types, decl, fs.drop_first()),
        }
    }
}

/// Whether an object literal has a field named `k`.
fn obj_has_key(fs: &Vec<(Spanning<String>, Spanning<InputValue>)>, k: &str) -> (r: bool)
    ensures
        r == spec_obj_has_key(fs@, k@),
{
    let mut i: usize = 0;
    while i < fs.len()
        invariant
            i <= fs@.len(),
            forall|j: int| 0 <= j < i as int ==> fs@[j].0.item@ != k@,
        decreases fs@.len() - i,
    {
        if str_eq(fs[i].0.item.as_str(), k) {
            return true;
        }
        i = i + 1;
    }
    false
}

/// Whether every non-null declared field without a default is supplied.
fn required_present(decl: &Vec<ArgumentMeta>, fs: &Vec<(Spanning<String>, Spanning<InputValue>)>) -> (r:
    bool)
    ensures
        r == spec_required_present(decl@, fs@),
{
    let mut i: usize = 0;
    while i < decl.len()
        invariant
            i <= decl@.len(),
            forall|j: int|
                0 <= j < i as int && (#[trigger] decl@[j]).arg_type.spec_is_non_null() && (decl@[
                j].default_value matches Option::None) ==> spec_obj_has_key(fs@, decl@[j].name@),
        decreases decl@.len() - i,
    {
        let required = decl[i].arg_type.is_non_null() && match &decl[i].default_value {
            Option::Some(_) => false,
            Option::None => true,
        };
        if required && !obj_has_key(fs, decl[i].name.as_str()) {
            return false;
        }
        i = i + 1;
    }
    true
}

/// Validity of a non-null, non-variable literal against a named type (see
/// `spec_valid_literal_named`).
fn valid_literal_named(types: &Vec<(String, MetaType)>, name: &str, v: &InputValue) -> (r: bool)
    ensures
        r == spec_valid_literal_named(types@, name@, *v),
    decreases *v, 0int, 0int,
{
    let meta = match crate::schema::lookup_in(types, name) {
        Option::Some(m) => m,
        Option::None => {
            return true;
        },
    };
    match meta {
        MetaType::Scalar { name: sname } => {
            if str_eq(sname.as_str(), "Int") {
                matches!(v, InputValue::Int(_))
            } else if str_eq(sname.as_str(), "Float") {
                matches!(v, InputValue::Int(_) | InputValue::Float(_))
            } else if str_eq(sname.as_str(), "String") {
                matches!(v, InputValue::Str(_))
            } else if str_eq(sname.as_str(), "Boolean") {
                matches!(v, InputValue::Boolean(_))
            } else if str_eq(sname.as_str(), "ID") {
                matches!(v, InputValue::Str(_) | InputValue::Int(_))
            } else {
                matches!(
                    v,
                    InputValue::Int(_) | InputValue::Float(_) | InputValue::Str(_)
                        | InputValue::Boolean(_)
                )
            }
        },
        MetaType::Enum { values, .. } => match v {
            InputValue::Enum(s) => contains_string(values, s.as_str()),
            _ => false,
        },
        MetaType::InputObject { fields, .. } => match v {
            InputValue::Object(fs) => {
                proof {
                    assert(decreases_to!(*v => v->Object_0));
                    assert(v->Object_0 == *fs);
                    assert(decreases_to!(*fs => fs@));
                    assert(fs@.skip(0) =~= fs@);
                }
                valid_obj_fields(types, fields, fs, 0) && required_present(fields, fs)
            },
            _ => false,
        },
        _ => false,
    }
}

/// Validity of a literal value against a declared type (see
/// `spec_valid_literal`).
pub fn valid_literal(types: &Vec<(String, MetaType)>, t: &TypeRef, v: &InputValue) -> (r: bool)
    ensures
        r == spec_valid_literal(types@, *t, *v),
    decreases *v, type_depth(*t), 1int,
{
    if let InputValue::Variable(_) = v {
        return true;
    }
    match t {
        TypeRef::Named(n) => match v {
            InputValue::Null => true,
            _ => valid_literal_named(types, n.as_str(), v),
        },
        TypeRef::NonNullNamed(n) => match v {
            InputValue::Null => false,
            _ => valid_literal_named(types, n.as_str(), v),
        },
        TypeRef::List(inner) => match v {
            InputValue::Null => true,
            _ => valid_literal_list(types, inner, v),
        },
        TypeRef::NonNullList(inner) => match v {
            InputValue::Null => false,
            _ => valid_literal_list(types, inner, v),
        },
    }
}

/// Validity of a non-null literal against the element type of a list (see
/// `spec_valid_literal_list`).
fn valid_literal_list(types: &Vec<(String, MetaType)>, inner: &TypeRef, v: &InputValue) -> (r:
    bool)
    ensures
        r == spec_valid_literal_list(types@, *inner, *v),
    decreases *v, type_depth(*inner), 3int,
{
    match v {
        InputValue::List(items) => {
            proof {
                assert(decreases_to!(*v => v->List_0));
                assert(v->List_0 == *items);
                assert(decreases_to!(*items => items@));
                assert(items@.skip(0) =~= items@);
            }
            valid_items(types, inner, items, 0)
        },
        _ => valid_literal(types, inner, v),
    }
}

/// Validity of every element of a list literal from position `i` on.
fn valid_items(
    types: &Vec<(String, MetaType)>,
    inner: &TypeRef,
    items: &Vec<Spanning<InputValue>>,
    i: usize,
) -> (r: bool)
    requires
        i <= items@.len(),
    ensures
        r == spec_valid_items(types@, *inner, items@.skip(i as int)),
    decreases items@.skip(i as int), type_depth(*inner), 2int,
{
    if i == items.len() {
        proof {
            assert(items@.skip(i as int) =~= Seq::<Spanning<InputValue>>::empty());
        }
        return true;
    }
    proof {
        assert(items@.skip(i as int)[0] == items@[i as int]);
        assert(decreases_to!(items@.skip(i as int) => items@.skip(i as int)[0]));
        assert(decreases_to!(items@.skip(i as int)[0] => items@.skip(i as int)[0].item));
        assert(items@.skip(i as int).drop_first() =~= items@.skip(i as int + 1));
        assert(decreases_to!(items@.skip(i as int) => items@.skip(i as int).drop_first()));
    }
    valid_literal(types, inner, &items[i].item) && valid_items(types, inner, items, i + 1)
}

/// Validity of every supplied object field from position `i` on.
fn valid_obj_fields(
    types: &Vec<(String, MetaType)>,
    decl: &Vec<ArgumentMeta>,
    fs: &Vec<(Spanning<String>, Spanning<InputValue>)>,
    i: usize,
) -> (r: bool)
    requires
        i <= fs@.len(),
    ensures
        r == spec_valid_obj_fields(types@, decl@, fs@.skip(i as int)),
    decreases fs@.skip(i as int), 0int, 0int,
{
    if i == fs.len() {
        proof {
            assert(fs@.skip(i as int) =~= Seq::<(Spanning<String>, Spanning<InputValue>)>::empty());
        }
        return true;
    }
    proof {
        assert(fs@.skip(i as int)[0] == fs@[i as int]);
        assert(decreases_to!(fs@.skip(i as int) => fs@.skip(i as int)[0]));
        assert(decreases_to!(fs@.skip(i as int)[0] => fs@.skip(i as int)[0].1));
        assert(decreases_to!(fs@.skip(i as int)[0].1 => fs@.skip(i as int)[0].1.item));
        assert(fs@.skip(i as int).drop_first() =~= fs@.skip(i as int + 1));
        assert(decreases_to!(fs@.skip(i as int) => fs@.skip(i as int).drop_first()));
    }
    match arg_by_name(decl, fs[i].0.item.as_str()) {
        Option::None => false,
        Option::Some(arg) => valid_literal(types, &arg.arg_type, &fs[i].1.item) && valid_obj_fields(
            types,
            decl,
            fs,
            i + 1,
        ),
    }
}

} // verus!
