//! The pull interface that every operator offers.
use vstd::prelude::*;
use std::rc::Rc;
use crate::row::Row;
use crate::value::Datum;

verus! {

/// A finite sequence of shared rows, handed out one row for each call of
/// `next`.
pub trait RowSource {
    /// The source may be asked for its next row.
    spec fn ready(&self) -> bool;

    /// The contents of the rows that are still to come, in the order in
    /// which they will come.
    spec fn pending(&self) -> Seq<Seq<Datum>>;

    /// Hands out the first pending row, or nothing once no row is pending.
    fn next(&mut self) -> (row: Option<Rc<Row>>)
        requires
            old(self).ready(),
        ensures
            final(self).ready(),
            match row {
                Some(r) => {
                    &&& old(self).pending().len() > 0
                    &&& r@ == old(self).pending()[0]
                    &&& final(self).pending() == old(self).pending().skip(1)
                },
                None => {
                    &&& old(self).pending().len() == 0
                    &&& final(self).pending() == old(self).pending()
                },
            },
    ;
}

/// Another owner of the row behind `row`.
///
/// Calls `Rc::clone`, which hands back a pointer to the same allocation: the
/// row it points to is the one `row` points to.
#[verifier::external_body]
pub(crate) fn share(row: &Rc<Row>) -> (shared: Rc<Row>)
    ensures
        shared == *row,
{
    Rc::clone(row)
}

} // verus!
