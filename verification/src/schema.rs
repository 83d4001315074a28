//! The schema registry: the runtime catalog of named types, their fields,
//! arguments, and enum values, plus the root node that ties the catalog to
//! the root query and mutation types.

use vstd::prelude::*;
use vstd::pervasive::VecAdditionalExecFns;

use crate::ast::InputValue;
use crate::ast::TypeRef;
use crate::strutil::str_eq;

verus! {

broadcast use vstd::std_specs::vec::group_vec_axioms, vstd::string::group_string_axioms;

/// An argument declaration of a field or an input object field.
#[derive(PartialEq, Eq, Debug)]
pub struct ArgumentMeta {
    pub name: String,
    pub description: Option<String>,
    pub arg_type: TypeRef,
    pub default_value: Option<InputValue>,
}

/// A field declaration of an object or interface type.
#[derive(PartialEq, Eq, Debug)]
pub struct FieldMeta {
    pub name: String,
    pub description: Option<String>,
    pub arguments: Vec<ArgumentMeta>,
    pub field_type: TypeRef,
    pub deprecation_reason: Option<String>,
}

/// One named entry of the schema catalog. Structural wrappers (lists and
/// non-null marks) are spelt in `TypeRef` and are not catalogued by name.
/// A placeholder stands in for a type whose registration is under way, so
/// that cyclic type graphs terminate.
#[derive(PartialEq, Eq, Debug)]
pub enum MetaType {
    Scalar { name: String },
    Object { name: String, fields: Vec<FieldMeta>, interfaces: Vec<String> },
    Interface { name: String, fields: Vec<FieldMeta> },
    Union { name: String, types: Vec<String> },
    Enum { name: String, values: Vec<String> },
    InputObject { name: String, fields: Vec<ArgumentMeta> },
    Placeholder { name: String },
}

impl MetaType {
    /// The name under which this entry is catalogued.
    pub open spec fn spec_name(self) -> Seq<char> {
        match self {
            MetaType::Scalar { name } => name@,
            MetaType::Object { name, .. } => name@,
            MetaType::Interface { name, .. } => name@,
            MetaType::Union { name, .. } => name@,
            MetaType::Enum { name, .. } => name@,
            MetaType::InputObject { name, .. } => name@,
            MetaType::Placeholder { name } => name@,
        }
    }

    /// The name under which this entry is catalogued.
    pub fn name(&self) -> (r: &str)
        ensures
            r@ == self.spec_name(),
    {
        match self {
            MetaType::Scalar { name } => name.as_str(),
            MetaType::Object { name, .. } => name.as_str(),
            MetaType::Interface { name, .. } => name.as_str(),
            MetaType::Union { name, .. } => name.as_str(),
            MetaType::Enum { name, .. } => name.as_str(),
            MetaType::InputObject { name, .. } => name.as_str(),
            MetaType::Placeholder { name } => name.as_str(),
        }
    }
}


impl MetaType {
    /// Build a scalar type entry.
    pub fn build_scalar_type(name: &str) -> (r: MetaType)
        ensures
            r matches MetaType::Scalar { name: n } && n@ == name@,
    {
        MetaType::Scalar { name: name.to_owned() }
    }

    /// Build an enum type entry from its value labels.
    pub fn build_enum_type(name: &str, values: Vec<String>) -> (r: MetaType)
        ensures
            r matches MetaType::Enum { name: n, values: v } && n@ == name@ && v == values,
    {
        MetaType::Enum { name: name.to_owned(), values }
    }

    /// Build an object type entry from its fields; interfaces come in
    /// through `interfaces`.
    pub fn build_object_type(name: &str, fields: Vec<FieldMeta>) -> (r: MetaType)
        ensures
            r matches MetaType::Object { name: n, fields: f, interfaces: i } && n@ == name@ && f
                == fields && i@.len() == 0,
    {
        MetaType::Object { name: name.to_owned(), fields, interfaces: Vec::new() }
    }

    /// Build an interface type entry from its fields.
    pub fn build_interface_type(name: &str, fields: Vec<FieldMeta>) -> (r: MetaType)
        ensures
            r matches MetaType::Interface { name: n, fields: f } && n@ == name@ && f == fields,
    {
        MetaType::Interface { name: name.to_owned(), fields }
    }

    /// Build a union type entry from its member type names.
    pub fn build_union_type(name: &str, types: Vec<String>) -> (r: MetaType)
        ensures
            r matches MetaType::Union { name: n, types: t } && n@ == name@ && t == types,
    {
        MetaType::Union { name: name.to_owned(), types }
    }

    /// Build an input object type entry from its fields.
    pub fn build_input_object_type(name: &str, fields: Vec<ArgumentMeta>) -> (r: MetaType)
        ensures
            r matches MetaType::InputObject { name: n, fields: f } && n@ == name@ && f == fields,
    {
        MetaType::InputObject { name: name.to_owned(), fields }
    }

    /// The list of interface names implemented, on an object type entry.
    pub fn interfaces(self, names: Vec<String>) -> (r: MetaType)
        ensures
            self matches MetaType::Object { name, fields, .. } ==> r == (MetaType::Object {
                name,
                fields,
                interfaces: names,
            }),
            !(self matches MetaType::Object { .. }) ==> r == self,
    {
        match self {
            MetaType::Object { name, fields, .. } => MetaType::Object {
                name,
                fields,
                interfaces: names,
            },
            other => other,
        }
    }
}

impl FieldMeta {
    /// Declare a field of the given type, with no description, arguments,
    /// or deprecation yet.
    pub fn field(name: &str, field_type: TypeRef) -> (r: FieldMeta)
        ensures
            r.name@ == name@,
            r.description matches Option::None,
            r.arguments@.len() == 0,
            r.field_type == field_type,
            r.deprecation_reason matches Option::None,
    {
        FieldMeta {
            name: name.to_owned(),
            description: Option::None,
            arguments: Vec::new(),
            field_type,
            deprecation_reason: Option::None,
        }
    }

    /// The same field with a description.
    pub fn description(self, text: &str) -> (r: FieldMeta)
        ensures
            r.name == self.name,
            r.description matches Option::Some(d) && d@ == text@,
            r.arguments == self.arguments,
            r.field_type == self.field_type,
            r.deprecation_reason == self.deprecation_reason,
    {
        FieldMeta { description: Option::Some(text.to_owned()), ..self }
    }

    /// The same field with one more argument, declared after the ones
    /// already there.
    pub fn argument(self, arg: ArgumentMeta) -> (r: FieldMeta)
        ensures
            r.name == self.name,
            r.description == self.description,
            r.arguments@ == self.arguments@.push(arg),
            r.field_type == self.field_type,
            r.deprecation_reason == self.deprecation_reason,
    {
        let mut arguments = self.arguments;
        arguments.push(arg);
        FieldMeta { arguments, ..self }
    }

    /// The same field marked deprecated for the given reason.
    pub fn deprecated(self, reason: &str) -> (r: FieldMeta)
        ensures
            r.name == self.name,
            r.description == self.description,
            r.arguments == self.arguments,
            r.field_type == self.field_type,
            r.deprecation_reason matches Option::Some(d) && d@ == reason@,
    {
        FieldMeta { deprecation_reason: Option::Some(reason.to_owned()), ..self }
    }
}

impl ArgumentMeta {
    /// Declare an argument of the given type, with no description or
    /// default yet.
    pub fn arg(name: &str, arg_type: TypeRef) -> (r: ArgumentMeta)
        ensures
            r.name@ == name@,
            r.description matches Option::None,
            r.arg_type == arg_type,
            r.default_value matches Option::None,
    {
        ArgumentMeta {
            name: name.to_owned(),
            description: Option::None,
            arg_type,
            default_value: Option::None,
        }
    }

    /// The same argument with a declared default value.
    pub fn default_of(self, value: InputValue) -> (r: ArgumentMeta)
        ensures
            r.name == self.name,
            r.description == self.description,
            r.arg_type == self.arg_type,
            r.default_value == Option::Some(value),
    {
        ArgumentMeta { default_value: Option::Some(value), ..self }
    }
}

/// The entry for `name` in a catalogue, if any: the first with that name.
pub open spec fn spec_lookup(types: Seq<(String, MetaType)>, name: Seq<char>) -> Option<MetaType>
    decreases types,
{
    if types.len() == 0 {
        Option::None
    } else if types[0].0@ == name {
        Option::Some(types[0].1)
    } else {
        spec_lookup(types.drop_first(), name)
    }
}

/// The catalog under construction: named types are inserted as they
/// register themselves, with placeholders breaking cycles.
#[derive(PartialEq, Eq, Debug)]
pub struct Registry {
    pub types: Vec<(String, MetaType)>,
}

/// The entry for `name` in a type list, if any.
pub fn lookup_in<'a>(types: &'a Vec<(String, MetaType)>, name: &str) -> (r: Option<&'a MetaType>)
    ensures
        match r {
            Option::Some(m) => spec_lookup(types@, name@) == Option::Some(*m),
            Option::None => spec_lookup(types@, name@) matches Option::None,
        },
{
    let mut i: usize = 0;
    proof {
        assert(types@.skip(0) =~= types@);
    }
    while i < types.len()
        invariant
            i <= types@.len(),
            spec_lookup(types@, name@) == spec_lookup(types@.skip(i as int), name@),
        decreases types@.len() - i,
    {
        proof {
            assert(types@.skip(i as int)[0] == types@[i as int]);
            assert(types@.skip(i as int).drop_first() =~= types@.skip(i as int + 1));
        }
        if str_eq(types[i].0.as_str(), name) {
            return Option::Some(&types[i].1);
        }
        i = i + 1;
    }
    proof {
        assert(types@.skip(i as int) =~= Seq::empty());
    }
    Option::None
}

impl Registry {
    /// An empty registry holding only the built-in scalars `Int`, `Float`,
    /// `String`, `Boolean`, and `ID`.
    pub fn new() -> (r: Registry)
        ensures
            spec_lookup(r.types@, "Int"@) matches Option::Some(m) && m matches MetaType::Scalar {
                ..
            },
            spec_lookup(r.types@, "Float"@) matches Option::Some(m) && m
                matches MetaType::Scalar { .. },
            spec_lookup(r.types@, "String"@) matches Option::Some(m) && m
                matches MetaType::Scalar { .. },
            spec_lookup(r.types@, "Boolean"@) matches Option::Some(m) && m
                matches MetaType::Scalar { .. },
            spec_lookup(r.types@, "ID"@) matches Option::Some(m) && m matches MetaType::Scalar {
                ..
            },
    {
        let mut types: Vec<(String, MetaType)> = Vec::new();
        types.push(("Int".to_owned(), MetaType::Scalar { name: "Int".to_owned() }));
        types.push(("Float".to_owned(), MetaType::Scalar { name: "Float".to_owned() }));
        types.push(("String".to_owned(), MetaType::Scalar { name: "String".to_owned() }));
        types.push(("Boolean".to_owned(), MetaType::Scalar { name: "Boolean".to_owned() }));
        types.push(("ID".to_owned(), MetaType::Scalar { name: "ID".to_owned() }));
        proof {
            reveal_strlit("Int");
            reveal_strlit("Float");
            reveal_strlit("String");
            reveal_strlit("Boolean");
            reveal_strlit("ID");
            let t0 = types@;
            let t1 = t0.drop_first();
            let t2 = t1.drop_first();
            let t3 = t2.drop_first();
            let t4 = t3.drop_first();
            assert(t1[0] == t0[1] && t2[0] == t0[2] && t3[0] == t0[3] && t4[0] == t0[4]);
            assert("Int"@.len() == 3 && "Float"@.len() == 5 && "String"@.len() == 6 && "Boolean"@.len() == 7 && "ID"@.len() == 2);
            assert("Int"@ != "Float"@ && "Int"@ != "String"@ && "Int"@ != "Boolean"@ && "Int"@ != "ID"@);
            assert("Float"@ != "String"@ && "Float"@ != "Boolean"@ && "Float"@ != "ID"@);
            assert("String"@ != "Boolean"@ && "String"@ != "ID"@);
            assert("Boolean"@ != "ID"@);
            assert(spec_lookup(t0, "Float"@) == spec_lookup(t1, "Float"@));
            assert(spec_lookup(t1, "Float"@) == Option::Some(t1[0].1));
            assert(spec_lookup(t0, "String"@) == spec_lookup(t1, "String"@));
            assert(spec_lookup(t1, "String"@) == spec_lookup(t2, "String"@));
            assert(spec_lookup(t2, "String"@) == Option::Some(t2[0].1));
            assert(spec_lookup(t0, "Boolean"@) == spec_lookup(t1, "Boolean"@));
            assert(spec_lookup(t1, "Boolean"@) == spec_lookup(t2, "Boolean"@));
            assert(spec_lookup(t2, "Boolean"@) == spec_lookup(t3, "Boolean"@));
            assert(spec_lookup(t3, "Boolean"@) == Option::Some(t3[0].1));
            assert(spec_lookup(t0, "ID"@) == spec_lookup(t1, "ID"@));
            assert(spec_lookup(t1, "ID"@) == spec_lookup(t2, "ID"@));
            assert(spec_lookup(t2, "ID"@) == spec_lookup(t3, "ID"@));
            assert(spec_lookup(t3, "ID"@) == spec_lookup(t4, "ID"@));
            assert(spec_lookup(t4, "ID"@) == Option::Some(t4[0].1));
        }
        Registry { types }
    }

    /// The catalogued entry for `name`, if any.
    pub fn type_by_name(&self, name: &str) -> (r: Option<&MetaType>)
        ensures
            match r {
                Option::Some(m) => spec_lookup(self.types@, name@) == Option::Some(*m),
                Option::None => spec_lookup(self.types@, name@) matches Option::None,
            },
    {
        lookup_in(&self.types, name)
    }

    /// Whether `name` is catalogued.
    pub fn contains(&self, name: &str) -> (r: bool)
        ensures
            r == (spec_lookup(self.types@, name@) matches Option::Some(_)),
    {
        match self.type_by_name(name) {
            Option::Some(_) => true,
            Option::None => false,
        }
    }

    /// Catalogue `meta` under its own name. An earlier entry with that
    /// name — normally the placeholder inserted when its registration
    /// began — is replaced; other entries are untouched.
    #[verifier::loop_isolation(false)]
    pub fn insert(&mut self, meta: MetaType)
        ensures
            spec_lookup(final(self).types@, meta.spec_name()) == Option::Some(meta),
            forall|n: Seq<char>|
                n != meta.spec_name() ==> #[trigger] spec_lookup(final(self).types@, n)
                    == spec_lookup(old(self).types@, n),
    {
        let ghost orig = self.types@;
        let ghost gname = meta.spec_name();
        let name = meta.name().to_owned();
        let mut i: usize = 0;
        while i < self.types.len()
            invariant
                i <= self.types@.len(),
                self.types@ == orig,
                name@ == gname,
                gname == meta.spec_name(),
                forall|j: int| 0 <= j < i as int ==> (#[trigger] orig[j]).0@ != gname,
            decreases self.types@.len() - i,
        {
            if str_eq(self.types[i].0.as_str(), name.as_str()) {
                self.types.set(i, (name, meta));
                proof {
                    lemma_lookup_set(orig, self.types@, i as int, gname);
                }
                return ;
            }
            i = i + 1;
        }
        self.types.push((name, meta));
        proof {
            assert(self.types@ == orig.push(self.types@.last()));
            assert(self.types@.last().0@ == gname);
            assert(self.types@.last().1 == meta);
            lemma_lookup_none_of_all(orig, gname, i as int);
            lemma_lookup_push(orig, self.types@.last(), gname);
        }
    }

    /// Catalogue the scalar `name` unless some entry already holds that
    /// name.
    pub fn ensure_scalar(&mut self, name: &str)
        ensures
            spec_lookup(final(self).types@, name@) matches Option::Some(_),
            forall|n: Seq<char>|
                n != name@ ==> #[trigger] spec_lookup(final(self).types@, n) == spec_lookup(
                    old(self).types@,
                    n,
                ),
            spec_lookup(old(self).types@, name@) matches Option::Some(m) ==> spec_lookup(
                final(self).types@,
                name@,
            ) == Option::Some(m) && final(self).types@ == old(self).types@,
    {
        if !self.contains(name) {
            let m = MetaType::Scalar { name: name.to_owned() };
            self.insert(m);
        }
    }

    /// Catalogue a placeholder for `name` unless some entry already holds
    /// that name.
    pub fn insert_placeholder(&mut self, name: &str)
        ensures
            spec_lookup(final(self).types@, name@) matches Option::Some(_),
            forall|n: Seq<char>|
                n != name@ ==> #[trigger] spec_lookup(final(self).types@, n) == spec_lookup(
                    old(self).types@,
                    n,
                ),
            spec_lookup(old(self).types@, name@) matches Option::Some(m) ==> spec_lookup(
                final(self).types@,
                name@,
            ) == Option::Some(m) && final(self).types@ == old(self).types@,
    {
        if !self.contains(name) {
            let m = MetaType::Placeholder { name: name.to_owned() };
            self.insert(m);
        }
    }
}

/// After replacing the first entry named `name` — every earlier entry
/// bears another name — a lookup of `name` yields the new entry and every
/// other lookup is unchanged.
proof fn lemma_lookup_set(
    orig: Seq<(String, MetaType)>,
    upd: Seq<(String, MetaType)>,
    i: int,
    name: Seq<char>,
)
    requires
        0 <= i < orig.len(),
        upd.len() == orig.len(),
        forall|j: int| 0 <= j < orig.len() && j != i ==> upd[j] == orig[j],
        orig[i].0@ == name,
        upd[i].0@ == name,
        forall|j: int| 0 <= j < i ==> (#[trigger] orig[j]).0@ != name,
    ensures
        spec_lookup(upd, name) == Option::Some(upd[i].1),
        forall|n: Seq<char>| n != name ==> #[trigger] spec_lookup(upd, n) == spec_lookup(orig, n),
    decreases orig.len(),
{
    if i == 0 {
        assert(upd.drop_first() =~= orig.drop_first());
        assert(spec_lookup(upd, name) == Option::Some(upd[0].1));
        assert forall|n: Seq<char>| n != name implies #[trigger] spec_lookup(upd, n)
            == spec_lookup(orig, n) by {
            assert(spec_lookup(upd, n) == spec_lookup(upd.drop_first(), n));
            assert(spec_lookup(orig, n) == spec_lookup(orig.drop_first(), n));
        }
    } else {
        assert forall|j: int|
            0 <= j < orig.len() - 1 && j != i - 1 implies #[trigger] upd.drop_first()[j]
            == orig.drop_first()[j] by {
            assert(upd.drop_first()[j] == upd[j + 1]);
            assert(orig.drop_first()[j] == orig[j + 1]);
        }
        assert(orig.drop_first()[i - 1] == orig[i]);
        assert(upd.drop_first()[i - 1] == upd[i]);
        assert forall|j: int| 0 <= j < i - 1 implies (#[trigger] orig.drop_first()[j]).0@
            != name by {
            assert(orig.drop_first()[j] == orig[j + 1]);
        }
        lemma_lookup_set(orig.drop_first(), upd.drop_first(), i - 1, name);
        assert(upd[0] == orig[0]);
        assert(orig[0].0@ != name);
        assert(spec_lookup(upd, name) == spec_lookup(upd.drop_first(), name));
        assert forall|n: Seq<char>| n != name implies #[trigger] spec_lookup(upd, n)
            == spec_lookup(orig, n) by {
            if upd[0].0@ != n {
                assert(spec_lookup(upd, n) == spec_lookup(upd.drop_first(), n));
                assert(spec_lookup(orig, n) == spec_lookup(orig.drop_first(), n));
                assert(spec_lookup(upd.drop_first(), n) == spec_lookup(orig.drop_first(), n));
            }
        }
    }
}

/// A name that no entry bears is not found.
proof fn lemma_lookup_none_of_all(orig: Seq<(String, MetaType)>, name: Seq<char>, n: int)
    requires
        n == orig.len(),
        forall|j: int| 0 <= j < n ==> (#[trigger] orig[j]).0@ != name,
    ensures
        spec_lookup(orig, name) matches Option::None,
    decreases orig.len(),
{
    if orig.len() > 0 {
        assert forall|j: int| 0 <= j < orig.len() - 1 implies (#[trigger] orig.drop_first()[
            j
        ]).0@ != name by {
            assert(orig.drop_first()[j] == orig[j + 1]);
        }
        lemma_lookup_none_of_all(orig.drop_first(), name, n - 1);
    }
}

/// After pushing an entry under a name that was not found before, a
/// lookup of that name yields the pushed entry, and every other lookup is
/// unchanged.
proof fn lemma_lookup_push(orig: Seq<(String, MetaType)>, entry: (String, MetaType), name: Seq<
    char,
>)
    requires
        spec_lookup(orig, name) matches Option::None,
        entry.0@ == name,
    ensures
        spec_lookup(orig.push(entry), name) == Option::Some(entry.1),
        forall|n: Seq<char>|
            n != name ==> #[trigger] spec_lookup(orig.push(entry), n) == spec_lookup(orig, n),
    decreases orig.len(),
{
    if orig.len() == 0 {
        assert(orig.push(entry)[0] == entry);
        assert(spec_lookup(orig.push(entry), name) == Option::Some(entry.1));
        assert forall|n: Seq<char>|
            n != name implies #[trigger] spec_lookup(orig.push(entry), n) == spec_lookup(
            orig,
            n,
        ) by {
            assert(orig.push(entry).drop_first() =~= orig);
            assert(spec_lookup(orig.push(entry), n) == spec_lookup(orig.push(entry).drop_first(), n));
        }
    } else {
        assert(orig.push(entry)[0] == orig[0]);
        assert(orig.push(entry).drop_first() =~= orig.drop_first().push(entry));
        lemma_lookup_push(orig.drop_first(), entry, name);
        assert(orig[0].0@ != name);
        assert(spec_lookup(orig.push(entry), name) == spec_lookup(
            orig.drop_first().push(entry),
            name,
        ));
        assert forall|n: Seq<char>|
            n != name implies #[trigger] spec_lookup(orig.push(entry), n) == spec_lookup(
            orig,
            n,
        ) by {
            if orig[0].0@ != n {
                assert(spec_lookup(orig.push(entry), n) == spec_lookup(
                    orig.drop_first().push(entry),
                    n,
                ));
                assert(spec_lookup(orig, n) == spec_lookup(orig.drop_first(), n));
            }
        }
    }
}

/// The finished, immutable schema: the catalog plus the names of the root
/// query and mutation types.
#[derive(PartialEq, Eq, Debug)]
pub struct Schema {
    pub types: Vec<(String, MetaType)>,
    pub query_type_name: String,
    pub mutation_type_name: Option<String>,
}

impl Schema {
    /// The catalogued entry for `name`, if any.
    pub fn type_by_name(&self, name: &str) -> (r: Option<&MetaType>)
        ensures
            match r {
                Option::Some(m) => spec_lookup(self.types@, name@) == Option::Some(*m),
                Option::None => spec_lookup(self.types@, name@) matches Option::None,
            },
    {
        lookup_in(&self.types, name)
    }
}

} // verus!
