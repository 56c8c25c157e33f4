//! The values the interpreter moves around: a reference to an object (or
//! `null`), or the 64 bits of a primitive.
use vstd::prelude::*;

verus! {

/// A Java value. An `int` is held sign-extended, a `float` or `double` by
/// its bit pattern; an object by the number that identifies it on the heap.
#[derive(Clone, Copy, Debug, PartialEq, Eq, Structural)]
pub enum Value {
    Reference(Option<u64>),
    Primitive(u64),
}

/// The value of an `int`.
pub open spec fn int_value(value: i32) -> Value {
    Value::Primitive(value as u64)
}

/// The value of a `long`.
pub open spec fn long_value(value: i64) -> Value {
    Value::Primitive(value as u64)
}

/// The bits of a primitive value (`0` for a reference).
pub open spec fn bits_of(v: Value) -> u64 {
    match v {
        Value::Primitive(p) => p,
        Value::Reference(_) => 0,
    }
}

/// The `int` a primitive value holds: its low 32 bits.
pub open spec fn int_of(v: Value) -> i32 {
    bits_of(v) as i32
}

/// The `long` a primitive value holds.
pub open spec fn long_of(v: Value) -> i64 {
    bits_of(v) as i64
}

/// The object a reference value holds (`None` for `null`, and for a
/// primitive).
pub open spec fn object_of(v: Value) -> Option<u64> {
    match v {
        Value::Reference(o) => o,
        Value::Primitive(_) => None,
    }
}

/// Reading back an `int` gives the `int` stored.
pub proof fn lemma_int_round_trip(value: i32)
    ensures
        int_of(int_value(value)) == value,
{
    assert(((value as u64) as i32) == value) by (bit_vector);
}

/// Reading back a `long` gives the `long` stored.
pub proof fn lemma_long_round_trip(value: i64)
    ensures
        long_of(long_value(value)) == value,
{
    assert(((value as u64) as i64) == value) by (bit_vector);
}

impl Value {
    /// The value of the `int` `value`.
    #[allow(non_snake_case)]
    pub fn Integer(value: i32) -> (res: Value)
        ensures
            res == int_value(value),
    {
        Value::Primitive(value as u64)
    }

    /// The value of the `long` `value`.
    #[allow(non_snake_case)]
    pub fn Long(value: i64) -> (res: Value)
        ensures
            res == long_value(value),
    {
        Value::Primitive(value as u64)
    }

    /// A reference to `object`, or `null` for `None`.
    #[allow(non_snake_case)]
    pub fn Object(object: Option<u64>) -> (res: Value)
        ensures
            res == Value::Reference(object),
    {
        Value::Reference(object)
    }

    /// The `int` this primitive value holds.
    pub fn to_int(self) -> (res: i32)
        requires
            self is Primitive,
        ensures
            res == int_of(self),
    {
        match self {
            Value::Primitive(p) => {
                #[verifier::truncate]
                let r = p as i32;
                r
            },
            Value::Reference(_) => vstd::pervasive::unreached(),
        }
    }

    /// The `long` this primitive value holds.
    pub fn long(self) -> (res: i64)
        requires
            self is Primitive,
        ensures
            res == long_of(self),
    {
        match self {
            Value::Primitive(p) => {
                #[verifier::truncate]
                let r = p as i64;
                r
            },
            Value::Reference(_) => vstd::pervasive::unreached(),
        }
    }

    /// The object this reference value holds, `None` for `null`.
    pub fn object(self) -> (res: Option<u64>)
        requires
            self is Reference,
        ensures
            res == object_of(self),
    {
        match self {
            Value::Reference(o) => o,
            Value::Primitive(_) => vstd::pervasive::unreached(),
        }
    }
}

} // verus!
