//! Rows: immutable, fixed-arity tuples of values.
use vstd::prelude::*;
use vstd::std_specs::iter::IteratorSpec;
use std::rc::Rc;
use std::slice::Iter;
use crate::value::{Datum, Scalar, Value};

verus! {

/// The contents of a list of values, position by position.
pub open spec fn contents(values: Seq<Value>) -> Seq<Datum> {
    Seq::new(values.len(), |i: int| values[i]@)
}

/// The contents of a list of shared rows, row by row.
pub open spec fn row_views(rows: Seq<Rc<Row>>) -> Seq<Seq<Datum>> {
    Seq::new(rows.len(), |i: int| rows[i]@)
}

/// An ordered tuple of values. A row is never changed once it is built.
#[derive(Debug)]
pub struct Row {
    pub(crate) data: Vec<Value>,
}

impl View for Row {
    type V = Seq<Datum>;

    closed spec fn view(&self) -> Seq<Datum> {
        contents(self.data@)
    }
}

impl Row {
    /// Wraps the values as they stand, with no schema to hold them to.
    pub(crate) fn from_values(data: Vec<Value>) -> (row: Row)
        ensures
            row@ == contents(data@),
    {
        Row { data }
    }

    /// The number of columns.
    pub fn len(&self) -> (n: usize)
        ensures
            n == self@.len(),
    {
        self.data.len()
    }

    /// An iterator over the values, from column 0 on: what it will yield
    /// has the contents of this row.
    pub fn iter(&self) -> (values: Iter<'_, Value>)
        ensures
            contents(values.remaining().unref()) == self@,
            values.decrease() is Some,
            values.initial_value_relation(&values),
    {
        let values = self.data.iter();
        assert(values.remaining().unref() =~= self.data@);
        values
    }

    /// The value in column `index`, whatever its type.
    pub fn value(&self, index: usize) -> (v: Option<&Value>)
        ensures
            v is Some <==> index < self@.len(),
            v is Some ==> v->0@ == self@[index as int],
    {
        if index < self.data.len() {
            Some(&self.data[index])
        } else {
            None
        }
    }

    /// Column `index` read as a `T`: present exactly when the column exists
    /// and holds a `T`.
    pub fn get<T: Scalar>(&self, index: usize) -> (held: Option<&T>)
        ensures
            held is Some <==> index < self@.len() && self@[index as int].kind() == T::tag(),
            held is Some ==> held->0.datum() == self@[index as int],
    {
        if index < self.data.len() {
            T::pick(&self.data[index])
        } else {
            None
        }
    }
}

} // verus!
