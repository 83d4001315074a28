//! Laws of the library, stated and proved once and for all: coercing a
//! value to a declared type and coercing the coerced form again yields
//! the coerced form unchanged.

use vstd::prelude::*;

use crate::ast::InputValue;
use crate::ast::InputValueV;
use crate::ast::TypeRef;
use crate::ast::input_value_fields_model;
use crate::ast::input_value_list_model;
use crate::ast::input_value_model;
use crate::ast::lemma_input_value_fields_model;
use crate::ast::lemma_input_value_list_model;
use crate::coercion::CoerceOutcome;
use crate::coercion::FieldsOutcome;
use crate::coercion::ItemsOutcome;
use crate::coercion::spec_coerce;
use crate::coercion::spec_coerce_fields;
use crate::coercion::spec_coerce_items;
use crate::coercion::spec_coerce_list;
use crate::coercion::spec_coerce_named;
use crate::coercion::type_depth;
use crate::schema::ArgumentMeta;
use crate::schema::MetaType;
use crate::sourcepos::Spanning;

verus! {

broadcast use vstd::std_specs::vec::group_vec_axioms;

/// Input coercion is idempotent: when a supplied value coerces to a
/// declared type, the coerced form — seen here as any value `w` whose
/// model is the coerced outcome — coerces to that same outcome. Coercing
/// twice is the same as coercing once.
pub proof fn lemma_coerce_idempotent(
    types: Seq<(String, MetaType)>,
    t: TypeRef,
    v: InputValue,
    w: InputValue,
)
    requires
        spec_coerce(types, t, v) == CoerceOutcome::Coerced(input_value_model(w)),
    ensures
        spec_coerce(types, t, w) == CoerceOutcome::Coerced(input_value_model(w)),
    decreases v, type_depth(t), 1int,
{
    if v matches InputValue::Variable(_) {
        assert((input_value_model(w) matches InputValueV::Variable(_)));
        assert((w matches InputValue::Variable(_)));
    } else {
        match t {
            TypeRef::Named(n) => {
                if (v matches InputValue::Null) {
                    assert((w matches InputValue::Null));
                } else {
                    lemma_coerce_named_idempotent(types, n@, v, w);
                    assert(!(w matches InputValue::Null));
                    assert(!(w matches InputValue::Variable(_)));
                }
            },
            TypeRef::NonNullNamed(n) => {
                if (v matches InputValue::Null) {
                    assert(false);
                } else {
                    lemma_coerce_named_idempotent(types, n@, v, w);
                    assert(!(w matches InputValue::Null));
                    assert(!(w matches InputValue::Variable(_)));
                }
            },
            TypeRef::List(inner) => {
                if (v matches InputValue::Null) {
                    assert((w matches InputValue::Null));
                } else {
                    lemma_coerce_list_idempotent(types, *inner, v, w);
                    assert(!(w matches InputValue::Null));
                    assert(!(w matches InputValue::Variable(_)));
                }
            },
            TypeRef::NonNullList(inner) => {
                if (v matches InputValue::Null) {
                    assert(false);
                } else {
                    lemma_coerce_list_idempotent(types, *inner, v, w);
                    assert(!(w matches InputValue::Null));
                    assert(!(w matches InputValue::Variable(_)));
                }
            },
        }
    }
}

/// Idempotence through a named type: scalars return the value as it
/// stands, enums return the normalised enum token, and input objects
/// recurse field by field.
proof fn lemma_coerce_named_idempotent(
    types: Seq<(String, MetaType)>,
    name: Seq<char>,
    v: InputValue,
    w: InputValue,
)
    requires
        spec_coerce_named(types, name, v, name) == CoerceOutcome::Coerced(input_value_model(w)),
    ensures
        spec_coerce_named(types, name, w, name) == CoerceOutcome::Coerced(input_value_model(w)),
        !(w matches InputValue::Null),
        !(w matches InputValue::Variable(_)),
    decreases v, 0int, 0int,
{
    match crate::schema::spec_lookup(types, name) {
        Option::None => {},
        Option::Some(meta) => match meta {
            MetaType::Scalar { .. } => {
                assert(input_value_model(w) == input_value_model(v));
                match v {
                    InputValue::Int(_) => {
                        assert((w matches InputValue::Int(_)));
                    },
                    InputValue::Float(_) => {
                        assert((w matches InputValue::Float(_)));
                    },
                    InputValue::Str(_) => {
                        assert((w matches InputValue::Str(_)));
                    },
                    InputValue::Boolean(_) => {
                        assert((w matches InputValue::Boolean(_)));
                    },
                    _ => {},
                }
            },
            MetaType::Enum { .. } => {
                assert((input_value_model(w) matches InputValueV::Enum(_)));
                assert((w matches InputValue::Enum(_)));
            },
            MetaType::InputObject { fields, .. } => {
                match v {
                    InputValue::Object(fs) => {
                        match spec_coerce_fields(types, fields@, fs@) {
                            FieldsOutcome::Done(out) => {
                                assert(input_value_model(w) == InputValueV::Object(out));
                                match w {
                                    InputValue::Object(wfs) => {
                                        assert(input_value_fields_model(wfs@) == out);
                                        lemma_coerce_fields_idempotent(
                                            types,
                                            fields@,
                                            fs@,
                                            out,
                                            wfs@,
                                        );
                                    },
                                    _ => {
                                        assert(false);
                                    },
                                }
                            },
                            FieldsOutcome::Failed(_) => {},
                        }
                    },
                    _ => {},
                }
            },
            _ => {},
        },
    }
}

/// Idempotence through a list position: the coerced form is always a
/// list, whose elements each coerce to themselves.
proof fn lemma_coerce_list_idempotent(
    types: Seq<(String, MetaType)>,
    inner: TypeRef,
    v: InputValue,
    w: InputValue,
)
    requires
        spec_coerce_list(types, inner, v) == CoerceOutcome::Coerced(input_value_model(w)),
        !(v matches InputValue::Null),
        !(v matches InputValue::Variable(_)),
    ensures
        spec_coerce_list(types, inner, w) == CoerceOutcome::Coerced(input_value_model(w)),
        !(w matches InputValue::Null),
        !(w matches InputValue::Variable(_)),
    decreases v, type_depth(inner), 2int,
{
    match v {
        InputValue::List(items) => {
            match spec_coerce_items(types, inner, items@) {
                ItemsOutcome::Done(out) => {
                    assert(input_value_model(w) == InputValueV::List(out));
                    match w {
                        InputValue::List(ws) => {
                            assert(input_value_list_model(ws@) == out);
                            lemma_coerce_items_idempotent(types, inner, items@, out, ws@);
                        },
                        _ => {
                            assert(false);
                        },
                    }
                },
                ItemsOutcome::Failed(_) => {},
            }
        },
        _ => {
            match spec_coerce(types, inner, v) {
                CoerceOutcome::Coerced(u) => {
                    match w {
                        InputValue::List(ws) => {
                            lemma_input_value_list_model(ws@);
                            assert(input_value_model(w) == InputValueV::List(
                                input_value_list_model(ws@),
                            ));
                            assert(input_value_list_model(ws@).len() == 1);
                            assert(ws@.len() == 1);
                            assert(input_value_list_model(ws@)[0] == crate::sourcepos::SpanningV {
                                item: u,
                                start: crate::sourcepos::SourcePosition { index: 0, line: 0, col: 0 },
                                end: crate::sourcepos::SourcePosition { index: 0, line: 0, col: 0 },
                            });
                            assert(input_value_list_model(ws@)[0] == crate::sourcepos::SpanningV {
                                item: input_value_model(ws@[0].item),
                                start: ws@[0].start,
                                end: ws@[0].end,
                            });
                            assert(input_value_model(ws@[0].item) == u);
                            lemma_coerce_idempotent(types, inner, v, ws@[0].item);
                            assert(spec_coerce(types, inner, ws@[0].item)
                                == CoerceOutcome::Coerced(u));
                            assert(ws@.drop_first() =~= Seq::<Spanning<InputValue>>::empty());
                            assert(spec_coerce_items(types, inner, ws@.drop_first())
                                == ItemsOutcome::Done(Seq::<
                                crate::sourcepos::SpanningV<InputValueV>,
                            >::empty()));
                            assert(spec_coerce_items(types, inner, ws@) == ItemsOutcome::Done(
                                seq![
                                    crate::sourcepos::SpanningV {
                                        item: u,
                                        start: ws@[0].start,
                                        end: ws@[0].end,
                                    },
                                ] + Seq::<crate::sourcepos::SpanningV<InputValueV>>::empty(),
                            ));
                            assert(seq![
                                crate::sourcepos::SpanningV {
                                    item: u,
                                    start: ws@[0].start,
                                    end: ws@[0].end,
                                },
                            ] + Seq::<crate::sourcepos::SpanningV<InputValueV>>::empty()
                                =~= input_value_list_model(ws@));
                        },
                        _ => {
                            assert(false);
                        },
                    }
                },
                CoerceOutcome::Failed(_) => {},
            }
        },
    }
}

/// Elementwise idempotence of a coerced list body.
proof fn lemma_coerce_items_idempotent(
    types: Seq<(String, MetaType)>,
    inner: TypeRef,
    orig: Seq<Spanning<InputValue>>,
    out: Seq<crate::sourcepos::SpanningV<InputValueV>>,
    ws: Seq<Spanning<InputValue>>,
)
    requires
        spec_coerce_items(types, inner, orig) == ItemsOutcome::Done(out),
        input_value_list_model(ws) == out,
    ensures
        spec_coerce_items(types, inner, ws) == ItemsOutcome::Done(out),
    decreases orig, 0int, 0int,
{
    lemma_input_value_list_model(ws);
    if orig.len() == 0 {
        assert(out =~= Seq::<crate::sourcepos::SpanningV<InputValueV>>::empty());
        assert(ws.len() == 0);
    } else {
        match spec_coerce(types, inner, orig[0].item) {
            CoerceOutcome::Coerced(u) => {
                match spec_coerce_items(types, inner, orig.drop_first()) {
                    ItemsOutcome::Done(rest) => {
                        assert(out == seq![
                            crate::sourcepos::SpanningV {
                                item: u,
                                start: orig[0].start,
                                end: orig[0].end,
                            },
                        ] + rest);
                        assert(out[0].item == u);
                        assert(ws.len() == out.len());
                        assert(input_value_list_model(ws)[0] == out[0]);
                        assert(input_value_model(ws[0].item) == u);
                        lemma_coerce_idempotent(types, inner, orig[0].item, ws[0].item);
                        lemma_input_value_list_model(ws.drop_first());
                        assert(input_value_list_model(ws.drop_first()) =~= rest) by {
                            assert forall|j: int|
                                0 <= j < rest.len() implies input_value_list_model(
                                ws.drop_first(),
                            )[j] == rest[j] by {
                                assert(ws.drop_first()[j] == ws[j + 1]);
                                assert(input_value_list_model(ws)[j + 1] == out[j + 1]);
                                assert(out[j + 1] == rest[j]);
                            }
                        }
                        lemma_coerce_items_idempotent(types, inner, orig.drop_first(), rest, ws.drop_first());
                        assert(spec_coerce_items(types, inner, ws) == ItemsOutcome::Done(
                            seq![
                                crate::sourcepos::SpanningV {
                                    item: u,
                                    start: ws[0].start,
                                    end: ws[0].end,
                                },
                            ] + rest,
                        ));
                        assert(ws[0].start == out[0].start && ws[0].end == out[0].end);
                        assert(seq![
                            crate::sourcepos::SpanningV {
                                item: u,
                                start: ws[0].start,
                                end: ws[0].end,
                            },
                        ] + rest =~= out);
                    },
                    ItemsOutcome::Failed(_) => {},
                }
            },
            CoerceOutcome::Failed(_) => {},
        }
    }
}

/// Fieldwise idempotence of a coerced object body.
proof fn lemma_coerce_fields_idempotent(
    types: Seq<(String, MetaType)>,
    decl: Seq<ArgumentMeta>,
    orig: Seq<(Spanning<String>, Spanning<InputValue>)>,
    out: Seq<(crate::sourcepos::SpanningV<Seq<char>>, crate::sourcepos::SpanningV<InputValueV>)>,
    ws: Seq<(Spanning<String>, Spanning<InputValue>)>,
)
    requires
        spec_coerce_fields(types, decl, orig) == FieldsOutcome::Done(out),
        input_value_fields_model(ws) == out,
    ensures
        spec_coerce_fields(types, decl, ws) == FieldsOutcome::Done(out),
    decreases orig, 0int, 0int,
{
    lemma_input_value_fields_model(ws);
    if orig.len() == 0 {
        assert(out =~= Seq::<
            (crate::sourcepos::SpanningV<Seq<char>>, crate::sourcepos::SpanningV<InputValueV>),
        >::empty());
        assert(ws.len() == 0);
    } else {
        match crate::coercion::spec_arg_by_name(decl, orig[0].0.item@) {
            Option::None => {},
            Option::Some(arg) => {
                match spec_coerce(types, arg.arg_type, orig[0].1.item) {
                    CoerceOutcome::Coerced(u) => {
                        match spec_coerce_fields(types, decl, orig.drop_first()) {
                            FieldsOutcome::Done(rest) => {
                                assert(out[0].1.item == u);
                                assert(out[0].0.item == orig[0].0.item@);
                                assert(ws.len() == out.len());
                                assert(input_value_fields_model(ws)[0] == out[0]);
                                assert(ws[0].0.item@ == orig[0].0.item@);
                                assert(input_value_model(ws[0].1.item) == u);
                                lemma_coerce_idempotent(
                                    types,
                                    arg.arg_type,
                                    orig[0].1.item,
                                    ws[0].1.item,
                                );
                                lemma_input_value_fields_model(ws.drop_first());
                                assert(input_value_fields_model(ws.drop_first()) =~= rest) by {
                                    assert forall|j: int|
                                        0 <= j < rest.len() implies input_value_fields_model(
                                        ws.drop_first(),
                                    )[j] == rest[j] by {
                                        assert(ws.drop_first()[j] == ws[j + 1]);
                                        assert(input_value_fields_model(ws)[j + 1] == out[j + 1]);
                                        assert(out[j + 1] == rest[j]);
                                    }
                                }
                                lemma_coerce_fields_idempotent(
                                    types,
                                    decl,
                                    orig.drop_first(),
                                    rest,
                                    ws.drop_first(),
                                );
                                assert(spec_coerce_fields(types, decl, ws) == FieldsOutcome::Done(
                                    seq![
                                        (
                                            crate::sourcepos::SpanningV {
                                                item: ws[0].0.item@,
                                                start: ws[0].0.start,
                                                end: ws[0].0.end,
                                            },
                                            crate::sourcepos::SpanningV {
                                                item: u,
                                                start: ws[0].1.start,
                                                end: ws[0].1.end,
                                            },
                                        ),
                                    ] + rest,
                                ));
                                assert(seq![
                                    (
                                        crate::sourcepos::SpanningV {
                                            item: ws[0].0.item@,
                                            start: ws[0].0.start,
                                            end: ws[0].0.end,
                                        },
                                        crate::sourcepos::SpanningV {
                                            item: u,
                                            start: ws[0].1.start,
                                            end: ws[0].1.end,
                                        },
                                    ),
                                ] + rest =~= out);
                            },
                            FieldsOutcome::Failed(_) => {},
                        }
                    },
                    CoerceOutcome::Failed(_) => {},
                }
            },
        }
    }
}

} // verus!
