//! Laws that relate the two join strategies.
use vstd::prelude::*;
use vstd::seq_lib::lemma_multiset_commutative;
use crate::join::Equijoin;
use crate::value::Datum;

verus! {

/// With no left row, a probe finds nothing and the hash strategy yields
/// nothing, whatever the right rows are.
pub proof fn lemma_hashed_without_left(plan: Equijoin, right: Seq<Seq<Datum>>)
    ensures
        plan.hashed(Seq::empty(), right) == Seq::<Seq<Datum>>::empty(),
    decreases right.len(),
{
    if right.len() > 0 {
        lemma_hashed_without_left(plan, right.skip(1));
        assert(plan.probe(Seq::empty(), right[0]) =~= Seq::<Seq<Datum>>::empty());
    }
}

/// With no right row, a sweep finds nothing and the nested-loop strategy
/// yields nothing, whatever the left rows are.
pub proof fn lemma_nested_without_right(plan: Equijoin, left: Seq<Seq<Datum>>)
    ensures
        plan.nested(left, Seq::empty()) == Seq::<Seq<Datum>>::empty(),
    decreases left.len(),
{
    if left.len() > 0 {
        lemma_nested_without_right(plan, left.skip(1));
        assert(plan.sweep(left[0], Seq::empty()) =~= Seq::<Seq<Datum>>::empty());
    }
}

/// A join with an empty side has no output, under either strategy.
pub proof fn lemma_join_with_empty_side(
    plan: Equijoin,
    left: Seq<Seq<Datum>>,
    right: Seq<Seq<Datum>>,
)
    requires
        left.len() == 0 || right.len() == 0,
    ensures
        plan.nested(left, right).len() == 0,
        plan.hashed(left, right).len() == 0,
{
    if left.len() == 0 {
        assert(left =~= Seq::empty());
        lemma_hashed_without_left(plan, right);
    } else {
        assert(right =~= Seq::empty());
        lemma_nested_without_right(plan, left);
    }
}

/// Taking the first left row out of a hash join takes out, up to order,
/// the outputs of that row against all right rows.
proof fn lemma_hashed_split_left(plan: Equijoin, left: Seq<Seq<Datum>>, right: Seq<Seq<Datum>>)
    requires
        left.len() > 0,
    ensures
        plan.hashed(left, right).to_multiset() == plan.sweep(left[0], right).to_multiset().add(
            plan.hashed(left.skip(1), right).to_multiset(),
        ),
    decreases right.len(),
{
    if right.len() == 0 {
        let none = Seq::<Seq<Datum>>::empty();
        assert(none + none =~= none);
        lemma_multiset_commutative(none, none);
    } else {
        let r = right[0];
        let rest = right.skip(1);
        let first = plan.emitted(left[0], r);
        lemma_hashed_split_left(plan, left, rest);
        // The whole join: (first + probe(tail, r)) + hashed(left, rest).
        lemma_multiset_commutative(plan.probe(left, r), plan.hashed(left, rest));
        lemma_multiset_commutative(first, plan.probe(left.skip(1), r));
        // The first row's sweep: first + sweep(left[0], rest).
        lemma_multiset_commutative(first, plan.sweep(left[0], rest));
        // The tail's join: probe(tail, r) + hashed(tail, rest).
        lemma_multiset_commutative(plan.probe(left.skip(1), r), plan.hashed(left.skip(1), rest));
        assert(plan.hashed(left, right).to_multiset() =~= plan.sweep(
            left[0],
            right,
        ).to_multiset().add(plan.hashed(left.skip(1), right).to_multiset()));
    }
}

/// The join strategy does not change the result: the nested-loop join and
/// the hash join of the same inputs yield the same rows, each as often;
/// only the order may differ.
pub proof fn lemma_strategies_agree(plan: Equijoin, left: Seq<Seq<Datum>>, right: Seq<Seq<Datum>>)
    ensures
        plan.nested(left, right).to_multiset() == plan.hashed(left, right).to_multiset(),
    decreases left.len(),
{
    if left.len() == 0 {
        assert(left =~= Seq::empty());
        lemma_hashed_without_left(plan, right);
    } else {
        lemma_strategies_agree(plan, left.skip(1), right);
        lemma_hashed_split_left(plan, left, right);
        lemma_multiset_commutative(plan.sweep(left[0], right), plan.nested(left.skip(1), right));
    }
}

} // verus!
