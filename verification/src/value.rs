//! Scalar types and tagged values.
use vstd::prelude::*;

verus! {

/// The closed set of column types.
#[derive(Clone, Copy, Debug, PartialEq, Eq, Structural)]
pub enum Type {
    Str,
    U32,
    I32,
    Bool,
}

/// One scalar, tagged with the type it holds.
#[derive(Debug)]
pub enum Value {
    Str(String),
    U32(u32),
    I32(i32),
    Bool(bool),
}

/// The mathematical content of a [`Value`]: a string is its sequence of
/// characters.
pub enum Datum {
    Str(Seq<char>),
    U32(u32),
    I32(i32),
    Bool(bool),
}

impl Datum {
    /// The type a datum belongs to. Each datum has exactly one.
    pub open spec fn kind(self) -> Type {
        match self {
            Datum::Str(_) => Type::Str,
            Datum::U32(_) => Type::U32,
            Datum::I32(_) => Type::I32,
            Datum::Bool(_) => Type::Bool,
        }
    }
}

impl View for Value {
    type V = Datum;

    open spec fn view(&self) -> Datum {
        match self {
            Value::Str(s) => Datum::Str(s@),
            Value::U32(n) => Datum::U32(*n),
            Value::I32(n) => Datum::I32(*n),
            Value::Bool(b) => Datum::Bool(*b),
        }
    }
}

impl Clone for Value {
    fn clone(&self) -> (copy: Value)
        ensures
            copy@ == self@,
    {
        match self {
            Value::Str(s) => Value::Str(s.clone()),
            Value::U32(n) => Value::U32(*n),
            Value::I32(n) => Value::I32(*n),
            Value::Bool(b) => Value::Bool(*b),
        }
    }
}

impl Value {
    /// The runtime type of this value.
    pub fn type_of(&self) -> (t: Type)
        ensures
            t == self@.kind(),
    {
        match self {
            Value::Str(_) => Type::Str,
            Value::U32(_) => Type::U32,
            Value::I32(_) => Type::I32,
            Value::Bool(_) => Type::Bool,
        }
    }

    /// Exact equality of contents. Values of different types are never
    /// equal: nothing is coerced.
    pub fn same(&self, other: &Value) -> (equal: bool)
        ensures
            equal == (self@ == other@),
    {
        match self {
            Value::Str(a) => match other {
                Value::Str(b) => *a == *b,
                _ => false,
            },
            Value::U32(a) => match other {
                Value::U32(b) => *a == *b,
                _ => false,
            },
            Value::I32(a) => match other {
                Value::I32(b) => *a == *b,
                _ => false,
            },
            Value::Bool(a) => match other {
                Value::Bool(b) => *a == *b,
                _ => false,
            },
        }
    }
}

/// A Rust type that a [`Value`] can hold. `pick` reads a value as that type
/// and yields nothing when the value is of another type.
pub trait Scalar: Sized {
    /// The column type that corresponds to `Self`.
    spec fn tag() -> Type;

    /// The content of a value of this type.
    spec fn datum(&self) -> Datum;

    /// The `Self` that `v` holds, if it holds one.
    fn pick(v: &Value) -> (held: Option<&Self>)
        ensures
            held is Some <==> v@.kind() == Self::tag(),
            held is Some ==> held->0.datum() == v@,
    ;
}

impl Scalar for u32 {
    open spec fn tag() -> Type {
        Type::U32
    }

    open spec fn datum(&self) -> Datum {
        Datum::U32(*self)
    }

    fn pick(v: &Value) -> (held: Option<&u32>) {
        match v {
            Value::U32(n) => Some(n),
            _ => None,
        }
    }
}

impl Scalar for i32 {
    open spec fn tag() -> Type {
        Type::I32
    }

    open spec fn datum(&self) -> Datum {
        Datum::I32(*self)
    }

    fn pick(v: &Value) -> (held: Option<&i32>) {
        match v {
            Value::I32(n) => Some(n),
            _ => None,
        }
    }
}

impl Scalar for bool {
    open spec fn tag() -> Type {
        Type::Bool
    }

    open spec fn datum(&self) -> Datum {
        Datum::Bool(*self)
    }

    fn pick(v: &Value) -> (held: Option<&bool>) {
        match v {
            Value::Bool(b) => Some(b),
            _ => None,
        }
    }
}

impl Scalar for String {
    open spec fn tag() -> Type {
        Type::Str
    }

    open spec fn datum(&self) -> Datum {
        Datum::Str(self@)
    }

    fn pick(v: &Value) -> (held: Option<&String>) {
        match v {
            Value::Str(s) => Some(s),
            _ => None,
        }
    }
}

} // verus!
