//! The hash join operator.
use vstd::prelude::*;
use std::collections::HashMap;
use std::marker::PhantomData;
use std::rc::Rc;
use crate::join::Equijoin;
use crate::key_index::{
    bucket, code_of, enter, indexes, key_code, lemma_picked_is_probe, lemma_positions_bounded,
    picked, positions,
};
use crate::projection::JoinSchema;
use crate::row::{row_views, Row};
use crate::source::{share, RowSource};
use crate::value::{Datum, Type};

verus! {

/// Joins a left source with a right source on equal keys through an index
/// of the left rows by the hash code of their key. The left source is
/// consumed and indexed once, at construction; the right source is then
/// streamed, one row at a time, each probed against the index.
pub struct HashJoinIterator<I, J> where I: RowSource, J: RowSource {
    right: J,
    left_key_idx: usize,
    right_key_idx: usize,
    key_type: Type,
    join_schema: JoinSchema,
    rows: Vec<Rc<Row>>,
    index: HashMap<u64, Vec<usize>>,
    matches: Vec<Rc<Row>>,
    match_idx: usize,
    phantom: PhantomData<I>,
}

/// The output rows of the left rows against one right row, found through
/// the index.
fn probe_index(
    rows: &Vec<Rc<Row>>,
    index: &HashMap<u64, Vec<usize>>,
    join_schema: &JoinSchema,
    left_key_idx: usize,
    right_key_idx: usize,
    r: &Rc<Row>,
    Ghost(plan): Ghost<Equijoin>,
) -> (found: Vec<Rc<Row>>)
    requires
        plan.left_key == left_key_idx,
        plan.right_key == right_key_idx,
        plan.shape == join_schema@,
        plan.shape.wf(),
        indexes(index@, row_views(rows@), left_key_idx, rows@.len()),
        forall|i: int| 0 <= i < rows@.len() ==> plan.sound_pair(#[trigger] rows@[i]@, r@),
    ensures
        row_views(found@) == plan.probe(row_views(rows@), r@),
{
    let ghost left = row_views(rows@);
    let mut found: Vec<Rc<Row>> = Vec::new();
    if rows.len() == 0 {
        assert(row_views(found@) =~= plan.probe(left, r@));
        return found;
    }
    assert(plan.sound_pair(rows@[0]@, r@));
    match r.value(right_key_idx) {
        None => {},
        Some(b) => {
            let code = code_of(b);
            proof {
                assert forall|i: int| 0 <= i < left.len() implies plan.left_key < (
                #[trigger] left[i]).len() by {
                    assert(plan.sound_pair(rows@[i]@, r@));
                }
                lemma_picked_is_probe(plan, left, r@, left.len());
                lemma_positions_bounded(left, left_key_idx, code, left.len());
                assert(left.take(left.len() as int) =~= left);
                assert(bucket(index@, code) == positions(left, left_key_idx, code, left.len()));
            }
            match index.get(&code) {
                None => {
                    assert(row_views(found@) =~= plan.probe(left, r@));
                },
                Some(list) => {
                    assert(list@ == bucket(index@, code));
                    let mut k: usize = 0;
                    assert(list@.take(0) =~= Seq::empty());
                    assert(row_views(found@) =~= picked(plan, left, list@.take(0), r@));
                    while k < list.len()
                        invariant
                            k <= list@.len(),
                            left == row_views(rows@),
                            plan.left_key == left_key_idx,
                            plan.right_key == right_key_idx,
                            plan.shape == join_schema@,
                            plan.shape.wf(),
                            b@ == r@[right_key_idx as int],
                            forall|i: int|
                                0 <= i < rows@.len() ==> plan.sound_pair(#[trigger] rows@[i]@, r@),
                            forall|j: int| 0 <= j < list@.len() ==> (#[trigger] list@[j]) < rows@.len(),
                            row_views(found@) == picked(plan, left, list@.take(k as int), r@),
                        decreases list@.len() - k,
                    {
                        let ghost done = row_views(found@);
                        let at = list[k];
                        let l = &rows[at];
                        assert(plan.sound_pair(rows@[at as int]@, r@));
                        assert(list@.take(k + 1).drop_last() =~= list@.take(k as int));
                        let hit = match l.value(left_key_idx) {
                            Some(a) => a.same(b),
                            None => false,
                        };
                        assert(hit == plan.matched(l@, r@));
                        if hit {
                            let pair = vec![share(l), share(r)];
                            assert(row_views(pair@) =~= seq![l@, r@]);
                            match join_schema.generate_from_rows(pair) {
                                Ok(row) => {
                                    found.push(Rc::new(row));
                                },
                                Err(_) => {},
                            }
                        }
                        assert(row_views(found@) =~= done + plan.emitted(left[at as int], r@));
                        k += 1;
                    }
                    assert(list@.take(k as int) =~= list@);
                },
            }
        },
    }
    found
}

impl<I, J> HashJoinIterator<I, J> where I: RowSource, J: RowSource {
    /// The join that this operator computes.
    pub closed spec fn plan(&self) -> Equijoin {
        Equijoin {
            left_key: self.left_key_idx,
            right_key: self.right_key_idx,
            key_type: self.key_type,
            shape: self.join_schema@,
        }
    }

    /// The contents of the left rows, all held in memory and indexed.
    pub closed spec fn build_side(&self) -> Seq<Seq<Datum>> {
        row_views(self.rows@)
    }

    /// The right source, as far as it has not been consumed.
    pub closed spec fn probe_side(&self) -> J {
        self.right
    }

    /// The contents of the output rows found for the last right row drawn
    /// and not yet handed out.
    pub closed spec fn buffered(&self) -> Seq<Seq<Datum>> {
        row_views(self.matches@).skip(self.match_idx as int)
    }

    /// The count of rows handed out is within the buffer.
    pub closed spec fn cursor_valid(&self) -> bool {
        self.match_idx <= self.matches@.len()
    }

    /// The index holds every left row under the code of its key.
    pub closed spec fn indexed(&self) -> bool {
        indexes(self.index@, row_views(self.rows@), self.left_key_idx, self.rows@.len())
    }

    /// Takes every row out of `left` and indexes it by the hash code of its
    /// key, then waits for the first `next`.
    pub fn new(
        left: I,
        right: J,
        left_key_idx: usize,
        right_key_idx: usize,
        key_type: Type,
        join_schema: JoinSchema,
    ) -> (joined: Self)
        requires
            left.ready(),
            right.ready(),
            (Equijoin {
                left_key: left_key_idx,
                right_key: right_key_idx,
                key_type,
                shape: join_schema@,
            }).sound(left.pending(), right.pending()),
        ensures
            joined.ready(),
            joined.plan() == (Equijoin {
                left_key: left_key_idx,
                right_key: right_key_idx,
                key_type,
                shape: join_schema@,
            }),
            joined.build_side() == left.pending(),
            joined.probe_side() == right,
            joined.buffered().len() == 0,
            joined.pending() == joined.plan().hashed(left.pending(), right.pending()),
    {
        let ghost all = left.pending();
        let mut left = left;
        let mut rows: Vec<Rc<Row>> = Vec::new();
        loop
            invariant
                left.ready(),
                row_views(rows@) + left.pending() == all,
            ensures
                left.pending().len() == 0,
            decreases left.pending().len(),
        {
            let ghost before = left.pending();
            match left.next() {
                None => {
                    break ;
                },
                Some(row) => {
                    rows.push(row);
                    assert(row_views(rows@) + left.pending() =~= all) by {
                        assert(row_views(rows@) =~= row_views(rows@.drop_last()).push(row@));
                        assert(before =~= seq![before[0]] + before.skip(1));
                    }
                },
            }
        }
        assert(row_views(rows@) =~= all);
        let mut index: HashMap<u64, Vec<usize>> = HashMap::new();
        let mut i: usize = 0;
        while i < rows.len()
            invariant
                i <= rows@.len(),
                row_views(rows@) == all,
                indexes(index@, all, left_key_idx, i as nat),
            decreases rows@.len() - i,
        {
            let ghost earlier = index@;
            match rows[i].value(left_key_idx) {
                Some(v) => {
                    let code = code_of(v);
                    enter(&mut index, code, i);
                    assert forall|c: u64| #[trigger]
                        bucket(index@, c) == positions(all, left_key_idx, c, (i + 1) as nat) by {
                        assert(bucket(earlier, c) == positions(all, left_key_idx, c, i as nat));
                    }
                },
                None => {
                    assert forall|c: u64| #[trigger]
                        bucket(index@, c) == positions(all, left_key_idx, c, (i + 1) as nat) by {
                        assert(bucket(earlier, c) == positions(all, left_key_idx, c, i as nat));
                    }
                },
            }
            i += 1;
        }
        let joined = HashJoinIterator {
            right,
            left_key_idx,
            right_key_idx,
            key_type,
            join_schema,
            rows,
            index,
            matches: Vec::new(),
            match_idx: 0,
            phantom: PhantomData,
        };
        assert(joined.buffered() =~= Seq::empty());
        assert(joined.pending() =~= joined.plan().hashed(all, right.pending()));
        joined
    }
}

impl<I, J> RowSource for HashJoinIterator<I, J> where I: RowSource, J: RowSource {
    open spec fn ready(&self) -> bool {
        &&& self.probe_side().ready()
        &&& self.cursor_valid()
        &&& self.indexed()
        &&& self.plan().sound(self.build_side(), self.probe_side().pending())
    }

    open spec fn pending(&self) -> Seq<Seq<Datum>> {
        self.buffered() + self.plan().hashed(self.build_side(), self.probe_side().pending())
    }

    /// Hands out the next output row of the last right row drawn; when
    /// there is none left, draws right rows and probes the index until one
    /// has a match or the right source ends.
    fn next(&mut self) -> (row: Option<Rc<Row>>)
        ensures
            final(self).plan() == old(self).plan(),
            final(self).build_side() == old(self).build_side(),
    {
        let ghost plan = self.plan();
        let ghost left = self.build_side();
        let ghost total = self.pending();
        let mut row: Option<Rc<Row>> = None;
        loop
            invariant_except_break
                self.pending() == total,
            invariant
                self.ready(),
                self.plan() == plan,
                self.build_side() == left,
                self.match_idx <= self.matches@.len(),
            ensures
                match row {
                    Some(r) => {
                        &&& total.len() > 0
                        &&& r@ == total[0]
                        &&& self.pending() == total.skip(1)
                    },
                    None => total.len() == 0 && self.pending() == total,
                },
            decreases self.right.pending().len(),
        {
            if self.match_idx < self.matches.len() {
                self.match_idx += 1;
                row = Some(share(&self.matches[self.match_idx - 1]));
                assert(self.pending() =~= total.skip(1));
                break ;
            }
            let ghost before = self.right.pending();
            assert(self.buffered() =~= Seq::empty());
            assert(total =~= plan.hashed(left, before));
            match self.right.next() {
                None => {
                    assert(self.pending() =~= total);
                    row = None;
                    break ;
                },
                Some(r) => {
                    proof {
                        plan.lemma_sound_right_tail(left, before);
                        assert forall|i: int| 0 <= i < self.rows@.len() implies plan.sound_pair(
                            #[trigger] self.rows@[i]@,
                            r@,
                        ) by {
                            assert(plan.sound_pair(left[i], before[0]));
                        }
                    }
                    let found = probe_index(
                        &self.rows,
                        &self.index,
                        &self.join_schema,
                        self.left_key_idx,
                        self.right_key_idx,
                        &r,
                        Ghost(plan),
                    );
                    self.matches = found;
                    self.match_idx = 0;
                    assert(self.buffered() =~= plan.probe(left, before[0]));
                    assert(self.pending() =~= total);
                },
            }
        }
        row
    }
}

} // verus!
