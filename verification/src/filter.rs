//! The filter operator: the rows of a source that satisfy a predicate.
use vstd::prelude::*;
use std::rc::Rc;
use crate::row::Row;
use crate::source::RowSource;
use crate::value::Datum;

verus! {

/// The members of `rows` that satisfy `keep`, in their order.
pub open spec fn retain(rows: Seq<Seq<Datum>>, keep: spec_fn(Seq<Datum>) -> bool) -> Seq<
    Seq<Datum>,
>
    decreases rows.len(),
{
    if rows.len() == 0 {
        Seq::empty()
    } else if keep(rows[0]) {
        seq![rows[0]] + retain(rows.skip(1), keep)
    } else {
        retain(rows.skip(1), keep)
    }
}

/// Filtering by `p` and then by `q` keeps the same rows, in the same order,
/// as filtering once by "`p` and `q`".
pub proof fn lemma_retain_twice(
    rows: Seq<Seq<Datum>>,
    p: spec_fn(Seq<Datum>) -> bool,
    q: spec_fn(Seq<Datum>) -> bool,
)
    ensures
        retain(retain(rows, p), q) == retain(rows, |r: Seq<Datum>| p(r) && q(r)),
    decreases rows.len(),
{
    let both = |r: Seq<Datum>| p(r) && q(r);
    if rows.len() > 0 {
        lemma_retain_twice(rows.skip(1), p, q);
        if p(rows[0]) {
            let kept = retain(rows, p);
            assert(kept.skip(1) =~= retain(rows.skip(1), p));
        }
    }
}

/// Every row that is kept is a row of the input.
pub proof fn lemma_retain_members(
    rows: Seq<Seq<Datum>>,
    keep: spec_fn(Seq<Datum>) -> bool,
    row: Seq<Datum>,
)
    requires
        retain(rows, keep).contains(row),
    ensures
        rows.contains(row),
        keep(row),
    decreases rows.len(),
{
    if rows.len() > 0 {
        let rest = retain(rows.skip(1), keep);
        let kept = retain(rows, keep);
        let i = choose|i: int| 0 <= i < kept.len() && kept[i] == row;
        if keep(rows[0]) && i == 0 {
            assert(rows[0] == row);
        } else {
            if keep(rows[0]) {
                assert(rest[i - 1] == row);
            } else {
                assert(rest[i] == row);
            }
            lemma_retain_members(rows.skip(1), keep, row);
            let j = choose|j: int| 0 <= j < rows.skip(1).len() && rows.skip(1)[j] == row;
            assert(rows[j + 1] == row);
        }
    }
}

/// A source narrowed by a predicate. It holds no row between calls.
pub struct FilterIterator<I, F> where I: RowSource, F: Fn(&Rc<Row>) -> bool {
    iter: I,
    predicate: F,
}

impl<I, F> FilterIterator<I, F> where I: RowSource, F: Fn(&Rc<Row>) -> bool {
    /// The source that the rows are drawn from.
    pub closed spec fn upstream(&self) -> I {
        self.iter
    }

    /// The predicate that decides which rows pass.
    pub closed spec fn test(&self) -> F {
        self.predicate
    }

    /// The predicate can answer `true` for a row with these contents.
    pub open spec fn passes(predicate: F, row: Seq<Datum>) -> bool {
        exists|r: Rc<Row>| r@ == row && #[trigger] predicate.ensures((&r,), true)
    }

    /// The predicate may be called on every row that `source` will yield,
    /// and its answer for such a row depends on the row's contents alone.
    pub open spec fn suits(predicate: F, source: I) -> bool {
        &&& forall|r: Rc<Row>| source.pending().contains(r@) ==> #[trigger] predicate.requires((&r,))
        &&& forall|r: Rc<Row>, s: Rc<Row>|
            source.pending().contains(r@) && r@ == s@ && #[trigger] predicate.ensures((&r,), true)
                ==> !#[trigger] predicate.ensures((&s,), false)
    }

    /// The rows of `iter` for which `predicate` answers `true`, in the
    /// order of `iter`.
    pub fn new(iter: I, predicate: F) -> (filter: Self)
        requires
            iter.ready(),
            Self::suits(predicate, iter),
        ensures
            filter.upstream() == iter,
            filter.test() == predicate,
            filter.ready(),
            filter.pending() == retain(iter.pending(), |row: Seq<Datum>| Self::passes(predicate, row)),
            forall|i: int|
                0 <= i < filter.pending().len() ==> iter.pending().contains(
                    #[trigger] filter.pending()[i],
                ),
    {
        let filter = FilterIterator { iter, predicate };
        proof {
            let keep = |row: Seq<Datum>| Self::passes(predicate, row);
            assert forall|i: int| 0 <= i < filter.pending().len() implies iter.pending().contains(
                #[trigger] filter.pending()[i],
            ) by {
                assert(filter.pending().contains(filter.pending()[i]));
                lemma_retain_members(iter.pending(), keep, filter.pending()[i]);
            }
        }
        filter
    }
}

impl<I, F> RowSource for FilterIterator<I, F> where I: RowSource, F: Fn(&Rc<Row>) -> bool {
    open spec fn ready(&self) -> bool {
        &&& self.upstream().ready()
        &&& Self::suits(self.test(), self.upstream())
    }

    open spec fn pending(&self) -> Seq<Seq<Datum>> {
        retain(self.upstream().pending(), |row: Seq<Datum>| Self::passes(self.test(), row))
    }

    /// Draws rows from upstream, dropping those that fail the predicate,
    /// until one passes or upstream ends.
    fn next(&mut self) -> (row: Option<Rc<Row>>) {
        let ghost keep = |row: Seq<Datum>| Self::passes(self.test(), row);
        loop
            invariant
                self.ready(),
                self.test() == old(self).test(),
                keep == (|row: Seq<Datum>| Self::passes(self.test(), row)),
                retain(self.upstream().pending(), keep) == retain(old(self).upstream().pending(), keep),
            decreases self.upstream().pending().len(),
        {
            let ghost before = self.iter.pending();
            match self.iter.next() {
                None => {
                    return None;
                },
                Some(row) => {
                    assert(before.contains(row@)) by {
                        assert(before[0] == row@);
                    }
                    assert forall|r: Rc<Row>|
                        self.iter.pending().contains(r@) implies before.contains(r@) by {
                        let j = choose|j: int|
                            0 <= j < before.skip(1).len() && before.skip(1)[j] == r@;
                        assert(before[j + 1] == r@);
                    }
                    if (self.predicate)(&row) {
                        assert(keep(row@));
                        assert(retain(before, keep).skip(1) =~= retain(before.skip(1), keep));
                        return Some(row);
                    }
                    assert(!keep(row@));
                },
            }
        }
    }
}

} // verus!
