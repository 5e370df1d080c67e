//! The nested-loop join operator.
use vstd::prelude::*;
use std::marker::PhantomData;
use std::rc::Rc;
use crate::join::Equijoin;
use crate::projection::JoinSchema;
use crate::row::{row_views, Row};
use crate::source::{share, RowSource};
use crate::value::{Datum, Type};

verus! {

/// Joins a left source with a right source on equal keys by trying every
/// pair. The right rows are held in memory from the start; the first call
/// of `next` consumes the whole left source and buffers every output row,
/// and only then are the buffered rows handed out, one for each call.
pub struct NestedJoinIterator<I, J> where I: RowSource, J: RowSource {
    left: I,
    right: Vec<Rc<Row>>,
    left_key_idx: usize,
    right_key_idx: usize,
    key_type: Type,
    output_idx: usize,
    join_schema: JoinSchema,
    outputs: Vec<Rc<Row>>,
    phantom: PhantomData<J>,
}

impl<I, J> NestedJoinIterator<I, J> where I: RowSource, J: RowSource {
    /// The join that this operator computes.
    pub closed spec fn plan(&self) -> Equijoin {
        Equijoin {
            left_key: self.left_key_idx,
            right_key: self.right_key_idx,
            key_type: self.key_type,
            shape: self.join_schema@,
        }
    }

    /// The left source, as far as it has not been consumed.
    pub closed spec fn outer(&self) -> I {
        self.left
    }

    /// The contents of the right rows, all held in memory.
    pub closed spec fn inner(&self) -> Seq<Seq<Datum>> {
        row_views(self.right@)
    }

    /// The contents of the output rows that are buffered and not yet
    /// handed out.
    pub closed spec fn buffered(&self) -> Seq<Seq<Datum>> {
        row_views(self.outputs@).skip(self.output_idx as int)
    }

    /// The count of rows handed out is within the buffer.
    pub closed spec fn cursor_valid(&self) -> bool {
        self.output_idx <= self.outputs@.len()
    }

    /// Takes every row out of `right`, then waits for the first `next`.
    pub fn new(
        left: I,
        right: J,
        left_key_idx: usize,
        right_key_idx: usize,
        key_type: Type,
        join_schema: JoinSchema,
    ) -> (joined: Self)
        requires
            left.ready(),
            right.ready(),
            (Equijoin {
                left_key: left_key_idx,
                right_key: right_key_idx,
                key_type,
                shape: join_schema@,
            }).sound(left.pending(), right.pending()),
        ensures
            joined.ready(),
            joined.plan() == (Equijoin {
                left_key: left_key_idx,
                right_key: right_key_idx,
                key_type,
                shape: join_schema@,
            }),
            joined.outer() == left,
            joined.inner() == right.pending(),
            joined.buffered().len() == 0,
            joined.pending() == joined.plan().nested(left.pending(), right.pending()),
    {
        let ghost all = right.pending();
        let mut right = right;
        let mut rows: Vec<Rc<Row>> = Vec::new();
        loop
            invariant
                right.ready(),
                row_views(rows@) + right.pending() == all,
            ensures
                right.pending().len() == 0,
            decreases right.pending().len(),
        {
            let ghost before = right.pending();
            match right.next() {
                None => {
                    break ;
                },
                Some(row) => {
                    rows.push(row);
                    assert(row_views(rows@) + right.pending() =~= all) by {
                        assert(row_views(rows@) =~= row_views(rows@.drop_last()).push(row@));
                        assert(before =~= seq![before[0]] + before.skip(1));
                    }
                },
            }
        }
        assert(row_views(rows@) =~= all);
        let joined = NestedJoinIterator {
            left,
            right: rows,
            left_key_idx,
            right_key_idx,
            key_type,
            output_idx: 0,
            join_schema,
            outputs: Vec::new(),
            phantom: PhantomData,
        };
        assert(joined.buffered() =~= Seq::empty());
        assert(joined.pending() =~= joined.plan().nested(left.pending(), all));
        joined
    }
}

impl<I, J> RowSource for NestedJoinIterator<I, J> where I: RowSource, J: RowSource {
    open spec fn ready(&self) -> bool {
        &&& self.outer().ready()
        &&& self.cursor_valid()
        &&& self.plan().sound(self.outer().pending(), self.inner())
    }

    open spec fn pending(&self) -> Seq<Seq<Datum>> {
        self.buffered() + self.plan().nested(self.outer().pending(), self.inner())
    }

    /// Consumes what is left of the left source, buffering the output row
    /// of every matching pair, then hands out the first buffered row. No
    /// row is handed out before the left source is exhausted.
    fn next(&mut self) -> (row: Option<Rc<Row>>)
        ensures
            final(self).outer().pending().len() == 0,
            final(self).plan() == old(self).plan(),
            final(self).inner() == old(self).inner(),
    {
        let ghost plan = self.plan();
        let ghost inner = self.inner();
        let ghost total = self.pending();
        loop
            invariant
                self.ready(),
                self.plan() == plan,
                self.inner() == inner,
                self.pending() == total,
                self.output_idx <= self.outputs@.len(),
            ensures
                self.left.pending().len() == 0,
            decreases self.left.pending().len(),
        {
            let ghost before = self.left.pending();
            let ghost held = row_views(self.outputs@);
            let ghost handed = self.output_idx;
            assert(total == held.skip(handed as int) + plan.nested(before, inner));
            match self.left.next() {
                None => {
                    break ;
                },
                Some(outer_row) => {
                    proof {
                        plan.lemma_sound_left_tail(before, inner);
                    }
                    let mut j: usize = 0;
                    assert(inner.skip(0) =~= inner);
                    while j < self.right.len()
                        invariant
                            j <= self.right@.len(),
                            self.plan() == plan,
                            self.inner() == inner,
                            inner == row_views(self.right@),
                            self.left.ready(),
                            self.left.pending() == before.skip(1),
                            plan.sound(before, inner),
                            before.len() > 0,
                            outer_row@ == before[0],
                            self.output_idx == handed,
                            handed <= held.len(),
                            row_views(self.outputs@) + plan.sweep(outer_row@, inner.skip(j as int))
                                == held + plan.sweep(outer_row@, inner),
                        decreases self.right@.len() - j,
                    {
                        let ghost rest = inner.skip(j as int);
                        let ghost done = row_views(self.outputs@);
                        assert(rest[0] == inner[j as int]);
                        assert(rest.skip(1) =~= inner.skip(j + 1));
                        assert(plan.sound_pair(before[0], inner[j as int]));
                        let inner_row = &self.right[j];
                        let valid = match outer_row.value(self.left_key_idx) {
                            Some(a) => match inner_row.value(self.right_key_idx) {
                                Some(b) => a.same(b),
                                None => false,
                            },
                            None => false,
                        };
                        assert(valid == plan.matched(outer_row@, inner_row@));
                        if valid {
                            let x = vec![share(&outer_row), share(inner_row)];
                            assert(row_views(x@) =~= seq![outer_row@, inner_row@]);
                            match self.join_schema.generate_from_rows(x) {
                                Ok(result) => {
                                    self.outputs.push(Rc::new(result));
                                    assert(row_views(self.outputs@) =~= done + plan.emitted(
                                        outer_row@,
                                        inner_row@,
                                    ));
                                },
                                Err(_) => {
                                    proof {
                                        assert(false);
                                    }
                                },
                            }
                        }
                        assert(row_views(self.outputs@) =~= done + plan.emitted(
                            outer_row@,
                            inner[j as int],
                        ));
                        assert(row_views(self.outputs@) + plan.sweep(outer_row@, inner.skip(j + 1))
                            =~= done + plan.sweep(outer_row@, rest));
                        j += 1;
                    }
                    assert(self.pending() =~= total) by {
                        assert(inner.skip(j as int).len() == 0);
                        assert(plan.sweep(outer_row@, inner.skip(j as int)) =~= Seq::empty());
                        assert(row_views(self.outputs@) =~= held + plan.sweep(before[0], inner));
                        assert(self.buffered() =~= held.skip(handed as int) + plan.sweep(
                            before[0],
                            inner,
                        ));
                        assert(plan.nested(before, inner) == plan.sweep(before[0], inner)
                            + plan.nested(before.skip(1), inner));
                    }
                },
            }
        }
        assert(plan.nested(self.left.pending(), inner) =~= Seq::empty());
        if self.output_idx < self.outputs.len() {
            self.output_idx += 1;
            let row = share(&self.outputs[self.output_idx - 1]);
            assert(self.pending() =~= total.skip(1));
            return Some(row);
        }
        assert(self.pending() =~= total);
        None
    }
}

} // verus!
