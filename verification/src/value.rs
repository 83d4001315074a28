//! The output value tree that execution produces: null, scalars, lists, and
//! objects whose keys keep the order in which they were inserted.

use vstd::prelude::*;

verus! {

broadcast use vstd::std_specs::vec::group_vec_axioms;

/// A result value. An object is an ordered association list: key order is
/// insertion order, which execution keeps equal to the source order of the
/// selection keys. A float is carried as decimal text, as in the input
/// model.
#[derive(PartialEq, Eq, Debug)]
pub enum Value {
    Null,
    Int(i32),
    Float(String),
    Str(String),
    Boolean(bool),
    List(Vec<Value>),
    Object(Vec<(String, Value)>),
}

/// Whether some field of `fields` is named `key`.
pub open spec fn object_has_key(fields: Seq<(String, Value)>, key: Seq<char>) -> bool {
    exists|i: int| 0 <= i < fields.len() && fields[i].0@ == key
}

/// The value of the first field of `fields` named `key`.
pub open spec fn object_lookup(fields: Seq<(String, Value)>, key: Seq<char>) -> Option<Value>
    decreases fields,
{
    if fields.len() == 0 {
        Option::None
    } else if fields[0].0@ == key {
        Option::Some(fields[0].1)
    } else {
        object_lookup(fields.drop_first(), key)
    }
}

/// A lookup finds a value exactly when the key is present.
pub broadcast proof fn lemma_object_lookup_some(fields: Seq<(String, Value)>, key: Seq<char>)
    ensures
        (#[trigger] object_lookup(fields, key)) matches Option::Some(_) <==> object_has_key(
            fields,
            key,
        ),
    decreases fields,
{
    if fields.len() > 0 {
        lemma_object_lookup_some(fields.drop_first(), key);
        if fields[0].0@ != key {
            assert forall|i: int|
                0 <= i < fields.len() && fields[i].0@ == key implies object_has_key(
                fields.drop_first(),
                key,
            ) by {
                assert(fields.drop_first()[i - 1] == fields[i]);
            }
        }
    }
}

impl Value {
    /// Build a string value from a string slice.
    pub fn string(s: &str) -> (r: Value)
        ensures
            r matches Value::Str(v) && v@ == s@,
    {
        Value::Str(s.to_owned())
    }

    /// Build an int value.
    pub fn int_value(i: i32) -> (r: Value)
        ensures
            r == Value::Int(i),
    {
        Value::Int(i)
    }

    /// Build a boolean value.
    pub fn boolean(b: bool) -> (r: Value)
        ensures
            r == Value::Boolean(b),
    {
        Value::Boolean(b)
    }

    /// Build the null value.
    pub fn null() -> (r: Value)
        ensures
            r == Value::Null,
    {
        Value::Null
    }

    /// Build a list value.
    pub fn list(items: Vec<Value>) -> (r: Value)
        ensures
            r == Value::List(items),
    {
        Value::List(items)
    }

    /// Build an object value from an ordered field list.
    pub fn object(fields: Vec<(String, Value)>) -> (r: Value)
        ensures
            r == Value::Object(fields),
    {
        Value::Object(fields)
    }

    /// Whether this value is null.
    pub fn is_null(&self) -> (r: bool)
        ensures
            r == (*self matches Value::Null),
    {
        match self {
            Value::Null => true,
            _ => false,
        }
    }

    /// The ordered field list, where this value is an object.
    pub fn as_object_value(&self) -> (r: Option<&Vec<(String, Value)>>)
        ensures
            match r {
                Option::Some(fields) => *self == Value::Object(*fields),
                Option::None => !(*self matches Value::Object(_)),
            },
    {
        match self {
            Value::Object(fields) => Option::Some(fields),
            _ => Option::None,
        }
    }
}

/// The value of the first field named `key` of an ordered field list, if
/// one is there.
pub fn object_field<'a>(fields: &'a Vec<(String, Value)>, key: &str) -> (r: Option<&'a Value>)
    ensures
        match r {
            Option::Some(v) => object_lookup(fields@, key@) == Option::Some(*v),
            Option::None => object_lookup(fields@, key@) matches Option::None,
        },
{
    let mut i: usize = 0;
    proof {
        assert(fields@.skip(0) =~= fields@);
    }
    while i < fields.len()
        invariant
            i <= fields@.len(),
            object_lookup(fields@, key@) == object_lookup(fields@.skip(i as int), key@),
        decreases fields@.len() - i,
    {
        proof {
            assert(fields@.skip(i as int)[0] == fields@[i as int]);
            assert(fields@.skip(i as int).drop_first() =~= fields@.skip(i as int + 1));
        }
        if crate::strutil::str_eq(fields[i].0.as_str(), key) {
            return Option::Some(&fields[i].1);
        }
        i = i + 1;
    }
    proof {
        assert(fields@.skip(i as int) =~= Seq::empty());
    }
    Option::None
}

} // verus!
