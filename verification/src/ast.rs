//! The abstract syntax tree for query documents: operations, fragments,
//! selections, input values, and type references.

use vstd::prelude::*;

use crate::sourcepos::Spanning;
use crate::sourcepos::SpanningV;

verus! {

broadcast use vstd::std_specs::vec::group_vec_axioms;

/// A reference to a type as written in a query: a bare name, a list, or a
/// non-null wrapper around either. A non-null wrapper never wraps another
/// non-null wrapper.
#[derive(PartialEq, Eq, Debug)]
pub enum TypeRef {
    Named(String),
    List(Box<TypeRef>),
    NonNullNamed(String),
    NonNullList(Box<TypeRef>),
}

impl TypeRef {
    /// The innermost type name: what is left when every list and non-null
    /// wrapper has been peeled off.
    pub open spec fn spec_innermost_name(self) -> Seq<char>
        decreases self,
    {
        match self {
            TypeRef::Named(n) => n@,
            TypeRef::NonNullNamed(n) => n@,
            TypeRef::List(inner) => inner.spec_innermost_name(),
            TypeRef::NonNullList(inner) => inner.spec_innermost_name(),
        }
    }

    /// Peel every list and non-null wrapper and return the bare type name.
    pub fn innermost_name(&self) -> (r: &str)
        ensures
            r@ == self.spec_innermost_name(),
        decreases *self,
    {
        match self {
            TypeRef::Named(n) => n.as_str(),
            TypeRef::NonNullNamed(n) => n.as_str(),
            TypeRef::List(inner) => inner.innermost_name(),
            TypeRef::NonNullList(inner) => inner.innermost_name(),
        }
    }

    /// Whether the outermost wrapper is non-null.
    pub open spec fn spec_is_non_null(self) -> bool {
        self matches TypeRef::NonNullNamed(_) || self matches TypeRef::NonNullList(_)
    }

    /// Whether the outermost wrapper is non-null.
    pub fn is_non_null(&self) -> (r: bool)
        ensures
            r == self.spec_is_non_null(),
    {
        match self {
            TypeRef::NonNullNamed(_) => true,
            TypeRef::NonNullList(_) => true,
            _ => false,
        }
    }
}

/// A literal value as written in a query document or supplied in the
/// variable map. A float literal is carried as its decimal source text:
/// the core never computes with it, and collaborators that need a machine
/// float convert at the boundary.
#[derive(PartialEq, Eq, Debug)]
pub enum InputValue {
    Null,
    Int(i32),
    Float(String),
    Str(String),
    Boolean(bool),
    Enum(String),
    Variable(String),
    List(Vec<Spanning<InputValue>>),
    Object(Vec<(Spanning<String>, Spanning<InputValue>)>),
}

/// The mathematical model of an input value: strings become sequences of
/// characters and vectors become sequences, everything else is carried as
/// it stands.
pub enum InputValueV {
    Null,
    Int(int),
    Float(Seq<char>),
    Str(Seq<char>),
    Boolean(bool),
    Enum(Seq<char>),
    Variable(Seq<char>),
    List(Seq<SpanningV<InputValueV>>),
    Object(Seq<(SpanningV<Seq<char>>, SpanningV<InputValueV>)>),
}

/// The model of one input value.
pub open spec fn input_value_model(v: InputValue) -> InputValueV
    decreases v,
{
    match v {
        InputValue::Null => InputValueV::Null,
        InputValue::Int(i) => InputValueV::Int(i as int),
        InputValue::Float(s) => InputValueV::Float(s@),
        InputValue::Str(s) => InputValueV::Str(s@),
        InputValue::Boolean(b) => InputValueV::Boolean(b),
        InputValue::Enum(s) => InputValueV::Enum(s@),
        InputValue::Variable(s) => InputValueV::Variable(s@),
        InputValue::List(items) => InputValueV::List(input_value_list_model(items@)),
        InputValue::Object(fields) => InputValueV::Object(input_value_fields_model(fields@)),
    }
}

/// The models of the elements of a value list, in order.
pub open spec fn input_value_list_model(s: Seq<Spanning<InputValue>>) -> Seq<SpanningV<InputValueV>>
    decreases s,
{
    if s.len() == 0 {
        Seq::empty()
    } else {
        seq![
            SpanningV { item: input_value_model(s[0].item), start: s[0].start, end: s[0].end },
        ] + input_value_list_model(s.drop_first())
    }
}

/// The models of the fields of an object literal, in order.
pub open spec fn input_value_fields_model(s: Seq<(Spanning<String>, Spanning<InputValue>)>) -> Seq<
    (SpanningV<Seq<char>>, SpanningV<InputValueV>),
>
    decreases s,
{
    if s.len() == 0 {
        Seq::empty()
    } else {
        seq![
            (
                SpanningV { item: s[0].0.item@, start: s[0].0.start, end: s[0].0.end },
                SpanningV { item: input_value_model(s[0].1.item), start: s[0].1.start, end: s[0].1.end },
            ),
        ] + input_value_fields_model(s.drop_first())
    }
}

/// A value list is modelled element by element.
pub broadcast proof fn lemma_input_value_list_model(s: Seq<Spanning<InputValue>>)
    ensures
        (#[trigger] input_value_list_model(s)).len() == s.len(),
        forall|i: int|
            0 <= i < s.len() ==> input_value_list_model(s)[i] == (SpanningV {
                item: input_value_model(s[i].item),
                start: s[i].start,
                end: s[i].end,
            }),
    decreases s,
{
    if s.len() > 0 {
        lemma_input_value_list_model(s.drop_first());
        assert forall|i: int| 0 <= i < s.len() implies input_value_list_model(s)[i] == (SpanningV {
            item: input_value_model(s[i].item),
            start: s[i].start,
            end: s[i].end,
        }) by {
            if i > 0 {
                assert(s.drop_first()[i - 1] == s[i]);
            }
        }
    }
}

/// An object literal is modelled field by field.
pub broadcast proof fn lemma_input_value_fields_model(
    s: Seq<(Spanning<String>, Spanning<InputValue>)>,
)
    ensures
        (#[trigger] input_value_fields_model(s)).len() == s.len(),
        forall|i: int|
            0 <= i < s.len() ==> input_value_fields_model(s)[i] == (
                SpanningV { item: s[i].0.item@, start: s[i].0.start, end: s[i].0.end },
                SpanningV {
                    item: input_value_model(s[i].1.item),
                    start: s[i].1.start,
                    end: s[i].1.end,
                },
            ),
    decreases s,
{
    if s.len() > 0 {
        lemma_input_value_fields_model(s.drop_first());
        assert forall|i: int| 0 <= i < s.len() implies input_value_fields_model(s)[i] == (
            SpanningV { item: s[i].0.item@, start: s[i].0.start, end: s[i].0.end },
            SpanningV {
                item: input_value_model(s[i].1.item),
                start: s[i].1.start,
                end: s[i].1.end,
            },
        ) by {
            if i > 0 {
                assert(s.drop_first()[i - 1] == s[i]);
            }
        }
    }
}

impl View for InputValue {
    type V = InputValueV;

    open spec fn view(&self) -> InputValueV {
        input_value_model(*self)
    }
}

impl InputValue {
    /// Build a string value from a string slice.
    pub fn string(s: &str) -> (r: InputValue)
        ensures
            r@ == InputValueV::Str(s@),
    {
        InputValue::Str(s.to_owned())
    }

    /// Build an int value.
    pub fn int_value(i: i32) -> (r: InputValue)
        ensures
            r@ == InputValueV::Int(i as int),
    {
        InputValue::Int(i)
    }

    /// Build a boolean value.
    pub fn boolean(b: bool) -> (r: InputValue)
        ensures
            r@ == InputValueV::Boolean(b),
    {
        InputValue::Boolean(b)
    }

    /// Build the null value.
    pub fn null() -> (r: InputValue)
        ensures
            r@ == InputValueV::Null,
    {
        InputValue::Null
    }

    /// Build an enum value from the label as written in the document.
    pub fn enum_value(s: &str) -> (r: InputValue)
        ensures
            r@ == InputValueV::Enum(s@),
    {
        InputValue::Enum(s.to_owned())
    }

    /// A copy of this value with the same model.
    #[verifier::loop_isolation(false)]
    pub fn duplicate(&self) -> (r: InputValue)
        ensures
            r@ == self@,
        decreases *self,
    {
        match self {
            InputValue::Null => InputValue::Null,
            InputValue::Int(i) => InputValue::Int(*i),
            InputValue::Float(s) => InputValue::Float(s.clone()),
            InputValue::Str(s) => InputValue::Str(s.clone()),
            InputValue::Boolean(b) => InputValue::Boolean(*b),
            InputValue::Enum(s) => InputValue::Enum(s.clone()),
            InputValue::Variable(s) => InputValue::Variable(s.clone()),
            InputValue::List(items) => {
                let mut out: Vec<Spanning<InputValue>> = Vec::new();
                let mut i: usize = 0;
                while i < items.len()
                    invariant
                        i <= items.len(),
                        out@.len() == i as int,
                        forall|j: int|
                            0 <= j < i as int ==> #[trigger] out@[j].item@ == items@[j].item@
                                && out@[j].start == items@[j].start && out@[j].end == items@[j].end,
                    decreases items.len() - i,
                {
                    let it = &items[i];
                    proof {
                        assert(*it == items@[i as int]);
                        assert(decreases_to!(*self => self->List_0));
                        assert(self->List_0 == *items);
                        assert(decreases_to!(*items => items@));
                        assert(decreases_to!(items@ => items@[i as int]));
                        assert(decreases_to!(items@[i as int] => items@[i as int].item));
                        assert(decreases_to!(*self => it.item));
                    }
                    let copied = it.item.duplicate();
                    out.push(Spanning { item: copied, start: it.start, end: it.end });
                    i = i + 1;
                }
                proof {
                    lemma_input_value_list_model(out@);
                    lemma_input_value_list_model(items@);
                    assert forall|j: int|
                        0 <= j < out@.len() implies input_value_list_model(out@)[j]
                        == input_value_list_model(items@)[j] by {
                        assert(out@[j].item@ == items@[j].item@);
                    }
                    assert(input_value_list_model(out@) =~= input_value_list_model(items@));
                }
                InputValue::List(out)
            },
            InputValue::Object(fields) => {
                let mut out: Vec<(Spanning<String>, Spanning<InputValue>)> = Vec::new();
                let mut i: usize = 0;
                while i < fields.len()
                    invariant
                        i <= fields.len(),
                        out@.len() == i as int,
                        forall|j: int|
                            0 <= j < i as int ==> #[trigger] out@[j].0.item@ == fields@[j].0.item@
                                && out@[j].0.start == fields@[j].0.start && out@[j].0.end
                                == fields@[j].0.end && out@[j].1.item@ == fields@[j].1.item@
                                && out@[j].1.start == fields@[j].1.start && out@[j].1.end
                                == fields@[j].1.end,
                    decreases fields.len() - i,
                {
                    let pair = &fields[i];
                    proof {
                        assert(*pair == fields@[i as int]);
                        assert(decreases_to!(*self => self->Object_0));
                        assert(self->Object_0 == *fields);
                        assert(decreases_to!(*fields => fields@));
                        assert(decreases_to!(fields@ => fields@[i as int]));
                        assert(decreases_to!(fields@[i as int] => fields@[i as int].1));
                        assert(decreases_to!(fields@[i as int].1 => fields@[i as int].1.item));
                        assert(decreases_to!(*self => pair.1.item));
                    }
                    let key = Spanning {
                        item: pair.0.item.clone(),
                        start: pair.0.start,
                        end: pair.0.end,
                    };
                    let val = Spanning {
                        item: pair.1.item.duplicate(),
                        start: pair.1.start,
                        end: pair.1.end,
                    };
                    out.push((key, val));
                    i = i + 1;
                }
                proof {
                    lemma_input_value_fields_model(out@);
                    lemma_input_value_fields_model(fields@);
                    assert forall|j: int|
                        0 <= j < out@.len() implies input_value_fields_model(out@)[j]
                        == input_value_fields_model(fields@)[j] by {
                        assert(out@[j].0.item@ == fields@[j].0.item@);
                        assert(out@[j].1.item@ == fields@[j].1.item@);
                    }
                    assert(input_value_fields_model(out@) =~= input_value_fields_model(fields@));
                }
                InputValue::Object(out)
            },
        }
    }
}

/// A single field selection: `alias: name(args) { subselections }`.
#[derive(PartialEq, Eq, Debug)]
pub struct Field {
    pub alias: Option<Spanning<String>>,
    pub name: Spanning<String>,
    pub arguments: Vec<(Spanning<String>, Spanning<InputValue>)>,
    pub selection_set: Option<Vec<Selection>>,
}

impl Field {
    /// The response key of a field: its alias if one is written, else its
    /// name.
    pub open spec fn spec_response_key(self) -> Seq<char> {
        match self.alias {
            Option::Some(a) => a.item@,
            Option::None => self.name.item@,
        }
    }

    /// The response key of a field: its alias if one is written, else its
    /// name.
    pub fn response_key(&self) -> (r: &str)
        ensures
            r@ == self.spec_response_key(),
    {
        match &self.alias {
            Option::Some(a) => a.item.as_str(),
            Option::None => self.name.item.as_str(),
        }
    }
}

/// A named fragment spread: `...Name`.
#[derive(PartialEq, Eq, Debug)]
pub struct FragmentSpread {
    pub name: Spanning<String>,
}

/// An inline fragment: `... on Type { ... }` or `... { ... }`.
#[derive(PartialEq, Eq, Debug)]
pub struct InlineFragment {
    pub type_condition: Option<Spanning<String>>,
    pub selection_set: Vec<Selection>,
}

/// One entry of a selection set.
#[derive(PartialEq, Eq, Debug)]
pub enum Selection {
    Field(Spanning<Field>),
    FragmentSpread(Spanning<FragmentSpread>),
    InlineFragment(Spanning<InlineFragment>),
}

/// A variable declared in an operation header: `$name: Type (= default)?`.
#[derive(PartialEq, Eq, Debug)]
pub struct VariableDefinition {
    pub var_type: Spanning<TypeRef>,
    pub default_value: Option<Spanning<InputValue>>,
}

/// Whether an operation reads or writes.
#[derive(Clone, Copy, PartialEq, Eq, Debug)]
pub enum OperationType {
    Query,
    Mutation,
}

/// A query or mutation operation.
#[derive(PartialEq, Eq, Debug)]
pub struct Operation {
    pub operation_type: OperationType,
    pub name: Option<Spanning<String>>,
    pub variable_definitions: Vec<(Spanning<String>, VariableDefinition)>,
    pub selection_set: Vec<Selection>,
}

/// A named fragment definition: `fragment Name on Type { ... }`.
#[derive(PartialEq, Eq, Debug)]
pub struct Fragment {
    pub name: Spanning<String>,
    pub type_condition: Spanning<String>,
    pub selection_set: Vec<Selection>,
}


/// Shape invariants of a parsed document, as the grammar guarantees
/// them: every selection set, written or nested, holds at least one
/// selection. That a non-null wrapper never wraps another non-null
/// wrapper needs no predicate: `TypeRef` cannot spell such a type.
pub open spec fn wf_selection(s: Selection) -> bool
    decreases s, 1int,
{
    match s {
        Selection::Field(f) => match f.item.selection_set {
            Option::Some(ss) => ss@.len() >= 1 && wf_selections(ss@),
            Option::None => true,
        },
        Selection::FragmentSpread(_) => true,
        Selection::InlineFragment(il) => il.item.selection_set@.len() >= 1 && wf_selections(
            il.item.selection_set@,
        ),
    }
}

/// Every selection of the list is well formed.
pub open spec fn wf_selections(ss: Seq<Selection>) -> bool
    decreases ss, 0int,
{
    if ss.len() == 0 {
        true
    } else {
        wf_selection(ss[0]) && wf_selections(ss.drop_first())
    }
}

/// A well-formed selection list is exactly one whose every member is
/// well formed.
pub broadcast proof fn lemma_wf_selections_iff(ss: Seq<Selection>)
    ensures
        #[trigger] wf_selections(ss) <==> (forall|i: int|
            0 <= i < ss.len() ==> wf_selection(#[trigger] ss[i])),
    decreases ss,
{
    if ss.len() > 0 {
        lemma_wf_selections_iff(ss.drop_first());
        assert forall|i: int| 0 <= i < ss.len() - 1 implies ss.drop_first()[i] == ss[i + 1] by {}
        if wf_selection(ss[0]) && (forall|i: int|
            0 <= i < ss.drop_first().len() ==> wf_selection(#[trigger] ss.drop_first()[i])) {
            assert forall|i: int| 0 <= i < ss.len() implies wf_selection(#[trigger] ss[i]) by {
                if i > 0 {
                    assert(ss.drop_first()[i - 1] == ss[i]);
                }
            }
        }
    }
}

/// A well-formed definition: its selection set is non-empty and well
/// formed throughout.
pub open spec fn wf_definition(d: Definition) -> bool {
    match d {
        Definition::Operation(op) => op.item.selection_set@.len() >= 1 && wf_selections(
            op.item.selection_set@,
        ),
        Definition::Fragment(f) => f.item.selection_set@.len() >= 1 && wf_selections(
            f.item.selection_set@,
        ),
    }
}

/// A well-formed document: at least one definition, each well formed.
pub open spec fn wf_document(defs: Seq<Definition>) -> bool {
    defs.len() >= 1 && forall|i: int| 0 <= i < defs.len() ==> wf_definition(#[trigger] defs[i])
}

/// One top-level definition of a document.
#[derive(PartialEq, Eq, Debug)]
pub enum Definition {
    Operation(Spanning<Operation>),
    Fragment(Spanning<Fragment>),
}

/// A whole parsed document: a non-empty list of definitions.
pub type Document = Vec<Definition>;

} // verus!
