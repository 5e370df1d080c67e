//! What an equality join of two row sequences is, whatever the strategy
//! that computes it.
use vstd::prelude::*;
use crate::projection::{JoinSchema, Projection};
use crate::schema::{all_fit, fits, RowSchema};
use crate::value::{Datum, Type};

verus! {

/// An equality join: the key column of each side, the type both key columns
/// hold, and how an output row is built from a matching `[left, right]`
/// pair.
pub struct Equijoin {
    pub left_key: usize,
    pub right_key: usize,
    pub key_type: Type,
    pub shape: Projection,
}

impl Equijoin {
    /// `row` has a column `idx`, and it holds a value of type `t`.
    pub open spec fn keyed(row: Seq<Datum>, idx: usize, t: Type) -> bool {
        idx < row.len() && row[idx as int].kind() == t
    }

    /// The two rows agree on their key columns. Equality is exact.
    pub open spec fn matched(self, l: Seq<Datum>, r: Seq<Datum>) -> bool {
        l[self.left_key as int] == r[self.right_key as int]
    }

    /// The pair can be joined without a fault: both keys are of the key
    /// type and, if they agree, the output row can be built.
    pub open spec fn sound_pair(self, l: Seq<Datum>, r: Seq<Datum>) -> bool {
        &&& Self::keyed(l, self.left_key, self.key_type)
        &&& Self::keyed(r, self.right_key, self.key_type)
        &&& self.matched(l, r) ==> self.shape.assembles(seq![l, r])
    }

    /// Every pair of a left and a right row can be joined without a fault.
    pub open spec fn sound(self, left: Seq<Seq<Datum>>, right: Seq<Seq<Datum>>) -> bool {
        &&& self.shape.wf()
        &&& forall|i: int, j: int|
            0 <= i < left.len() && 0 <= j < right.len() ==> self.sound_pair(
                #[trigger] left[i],
                #[trigger] right[j],
            )
    }

    /// The join agrees with the schemas of its two sides: both key columns
    /// are declared with the key type, and the output is built from columns
    /// that the two schemas declare, with the types they declare.
    pub open spec fn typed_by(self, left: Seq<Type>, right: Seq<Type>) -> bool {
        &&& self.shape.wf()
        &&& self.left_key < left.len() && left[self.left_key as int] == self.key_type
        &&& self.right_key < right.len() && right[self.right_key as int] == self.key_type
        &&& self.shape.reads(seq![left, right])
    }

    /// A join that agrees with the schemas of its sides is sound for all
    /// rows that fit those schemas.
    pub proof fn lemma_typed_is_sound(
        self,
        left_types: Seq<Type>,
        right_types: Seq<Type>,
        left: Seq<Seq<Datum>>,
        right: Seq<Seq<Datum>>,
    )
        requires
            self.typed_by(left_types, right_types),
            all_fit(left_types, left),
            all_fit(right_types, right),
        ensures
            self.sound(left, right),
    {
        assert forall|i: int, j: int|
            0 <= i < left.len() && 0 <= j < right.len() implies self.sound_pair(
            #[trigger] left[i],
            #[trigger] right[j],
        ) by {
            let l = left[i];
            let r = right[j];
            assert(fits(left_types, l) && fits(right_types, r));
            assert(l[self.left_key as int].kind() == left_types[self.left_key as int]);
            assert(r[self.right_key as int].kind() == right_types[self.right_key as int]);
            let inputs = seq![left_types, right_types];
            let rows = seq![l, r];
            assert forall|k: int| 0 <= k < rows.len() implies fits(inputs[k], #[trigger] rows[k]) by {}
            self.shape.lemma_fitting_rows_assemble(inputs, rows);
        }
    }

    /// What one pair contributes: its output row if the keys agree, nothing
    /// otherwise.
    pub open spec fn emitted(self, l: Seq<Datum>, r: Seq<Datum>) -> Seq<Seq<Datum>> {
        if self.matched(l, r) {
            seq![self.shape.assembled(seq![l, r])]
        } else {
            Seq::empty()
        }
    }

    /// The outputs of one left row against all right rows, in right order.
    pub open spec fn sweep(self, l: Seq<Datum>, right: Seq<Seq<Datum>>) -> Seq<Seq<Datum>>
        decreases right.len(),
    {
        if right.len() == 0 {
            Seq::empty()
        } else {
            self.emitted(l, right[0]) + self.sweep(l, right.skip(1))
        }
    }

    /// The output of the nested-loop strategy: left order first, right
    /// order within each left row.
    pub open spec fn nested(self, left: Seq<Seq<Datum>>, right: Seq<Seq<Datum>>) -> Seq<
        Seq<Datum>,
    >
        decreases left.len(),
    {
        if left.len() == 0 {
            Seq::empty()
        } else {
            self.sweep(left[0], right) + self.nested(left.skip(1), right)
        }
    }

    /// The outputs of one right row against all left rows, in left order.
    pub open spec fn probe(self, left: Seq<Seq<Datum>>, r: Seq<Datum>) -> Seq<Seq<Datum>>
        decreases left.len(),
    {
        if left.len() == 0 {
            Seq::empty()
        } else {
            self.emitted(left[0], r) + self.probe(left.skip(1), r)
        }
    }

    /// The output of the hash strategy: right order first, left order
    /// within each right row.
    pub open spec fn hashed(self, left: Seq<Seq<Datum>>, right: Seq<Seq<Datum>>) -> Seq<
        Seq<Datum>,
    >
        decreases right.len(),
    {
        if right.len() == 0 {
            Seq::empty()
        } else {
            self.probe(left, right[0]) + self.hashed(left, right.skip(1))
        }
    }

    /// Soundness of a join carries over to the left rows after the first.
    pub proof fn lemma_sound_left_tail(self, left: Seq<Seq<Datum>>, right: Seq<Seq<Datum>>)
        requires
            self.sound(left, right),
            left.len() > 0,
        ensures
            self.sound(left.skip(1), right),
    {
        assert forall|i: int, j: int|
            0 <= i < left.skip(1).len() && 0 <= j < right.len() implies self.sound_pair(
            #[trigger] left.skip(1)[i],
            #[trigger] right[j],
        ) by {
            assert(left.skip(1)[i] == left[i + 1]);
        }
    }

    /// Soundness of a join carries over to the right rows after the first.
    pub proof fn lemma_sound_right_tail(self, left: Seq<Seq<Datum>>, right: Seq<Seq<Datum>>)
        requires
            self.sound(left, right),
            right.len() > 0,
        ensures
            self.sound(left, right.skip(1)),
    {
        assert forall|i: int, j: int|
            0 <= i < left.len() && 0 <= j < right.skip(1).len() implies self.sound_pair(
            #[trigger] left[i],
            #[trigger] right.skip(1)[j],
        ) by {
            assert(right.skip(1)[j] == right[j + 1]);
        }
    }
}

/// Whether a join on the given key columns and key type, with output built
/// by `join_schema`, agrees with the schemas of its two sides.
pub fn join_agrees(
    left: &RowSchema,
    right: &RowSchema,
    left_key_idx: usize,
    right_key_idx: usize,
    key_type: Type,
    join_schema: &JoinSchema,
) -> (ok: bool)
    requires
        join_schema@.wf(),
    ensures
        ok == (Equijoin {
            left_key: left_key_idx,
            right_key: right_key_idx,
            key_type,
            shape: join_schema@,
        }).typed_by(left@, right@),
        ok ==> forall|l: Seq<Seq<Datum>>, r: Seq<Seq<Datum>>|
            all_fit(left@, l) && all_fit(right@, r) ==> #[trigger] (Equijoin {
                left_key: left_key_idx,
                right_key: right_key_idx,
                key_type,
                shape: join_schema@,
            }).sound(l, r),
{
    proof {
        let plan = Equijoin {
            left_key: left_key_idx,
            right_key: right_key_idx,
            key_type,
            shape: join_schema@,
        };
        if plan.typed_by(left@, right@) {
            assert forall|l: Seq<Seq<Datum>>, r: Seq<Seq<Datum>>|
                all_fit(left@, l) && all_fit(right@, r) implies #[trigger] plan.sound(l, r) by {
                plan.lemma_typed_is_sound(left@, right@, l, r);
            }
        }
    }
    if left_key_idx >= left.len() || right_key_idx >= right.len() {
        return false;
    }
    if left.column_type(left_key_idx) != key_type || right.column_type(right_key_idx) != key_type {
        return false;
    }
    let sides = vec![left.clone(), right.clone()];
    assert(crate::schema::schema_views(sides@) =~= seq![left@, right@]);
    join_schema.reads(&sides)
}

} // verus!
