//! Hash codes of key values, and the index from a code to the rows whose
//! key has that code.
use vstd::prelude::*;
use std::collections::HashMap;
use crate::join::Equijoin;
use crate::value::{Datum, Value};

verus! {

/// One step of the string hash: the code so far, times 31, plus the next
/// character, modulo 2^64.
pub open spec fn mix(h: u64, c: char) -> u64 {
    ((h * 31 + (c as u32)) % 0x1_0000_0000_0000_0000) as u64
}

/// The hash code of a string: `mix` folded over its characters from 0.
pub open spec fn text_code(s: Seq<char>) -> u64
    decreases s.len(),
{
    if s.len() == 0 {
        0
    } else {
        mix(text_code(s.drop_last()), s.last())
    }
}

/// The hash code of a key value. Equal values have equal codes.
pub open spec fn key_code(d: Datum) -> u64 {
    match d {
        Datum::Str(s) => text_code(s),
        Datum::U32(n) => n as u64,
        Datum::I32(n) => (n + 0x8000_0000) as u64,
        Datum::Bool(b) => if b {
            1
        } else {
            0
        },
    }
}

fn mix_exec(h: u64, c: char) -> (mixed: u64)
    ensures
        mixed == mix(h, c),
{
    let wide: u128 = h as u128 * 31 + (c as u32) as u128;
    (wide % 0x1_0000_0000_0000_0000u128) as u64
}

/// Computes the hash code of `v`.
pub fn code_of(v: &Value) -> (code: u64)
    ensures
        code == key_code(v@),
{
    match v {
        Value::Str(s) => {
            let mut h: u64 = 0;
            for c in it: s.as_str().chars()
                invariant
                    it.seq() == s@,
                    h == text_code(s@.take(it.index())),
            {
                assert(s@.take(it.index() + 1).drop_last() =~= s@.take(it.index()));
                h = mix_exec(h, c);
            }
            assert(s@.take(s@.len() as int) =~= s@);
            h
        },
        Value::U32(n) => *n as u64,
        Value::I32(n) => (*n as i64 + 0x8000_0000) as u64,
        Value::Bool(b) => if *b {
            1
        } else {
            0
        },
    }
}

/// The positions, among the first `n` of `rows`, of the rows that have a
/// column `key` whose value has code `code`, in ascending order.
pub open spec fn positions(rows: Seq<Seq<Datum>>, key: usize, code: u64, n: nat) -> Seq<usize>
    decreases n,
{
    if n == 0 {
        Seq::empty()
    } else {
        let before = positions(rows, key, code, (n - 1) as nat);
        let row = rows[n - 1];
        if key < row.len() && key_code(row[key as int]) == code {
            before.push((n - 1) as usize)
        } else {
            before
        }
    }
}

/// The positions that an index holds for `code`: none if it has no entry.
pub open spec fn bucket(index: Map<u64, Vec<usize>>, code: u64) -> Seq<usize> {
    if index.contains_key(code) {
        index[code]@
    } else {
        Seq::empty()
    }
}

/// The index holds, for every code, the positions of the first `n` rows
/// whose key has that code.
pub open spec fn indexes(
    index: Map<u64, Vec<usize>>,
    rows: Seq<Seq<Datum>>,
    key: usize,
    n: nat,
) -> bool {
    forall|code: u64| #[trigger] bucket(index, code) == positions(rows, key, code, n)
}

/// The outputs of the left rows at `at`, in that order, against one right
/// row.
pub open spec fn picked(plan: Equijoin, left: Seq<Seq<Datum>>, at: Seq<usize>, r: Seq<Datum>) -> Seq<
    Seq<Datum>,
>
    decreases at.len(),
{
    if at.len() == 0 {
        Seq::empty()
    } else {
        picked(plan, left, at.drop_last(), r) + plan.emitted(left[at.last() as int], r)
    }
}

/// Every indexed position is a position among the rows indexed.
pub proof fn lemma_positions_bounded(rows: Seq<Seq<Datum>>, key: usize, code: u64, n: nat)
    requires
        n <= usize::MAX,
    ensures
        forall|k: int|
            0 <= k < positions(rows, key, code, n).len() ==> (#[trigger] positions(
                rows,
                key,
                code,
                n,
            )[k]) < n,
    decreases n,
{
    if n > 0 {
        let before = positions(rows, key, code, (n - 1) as nat);
        let all = positions(rows, key, code, n);
        lemma_positions_bounded(rows, key, code, (n - 1) as nat);
        assert forall|k: int| 0 <= k < all.len() implies (#[trigger] all[k]) < n by {
            if k < before.len() {
                assert(all[k] == before[k]);
            }
        }
    }
}

/// A probe of the left rows with one more row at the end is the probe of the
/// left rows, followed by what the new row contributes.
pub proof fn lemma_probe_push(plan: Equijoin, left: Seq<Seq<Datum>>, l: Seq<Datum>, r: Seq<Datum>)
    ensures
        plan.probe(left.push(l), r) == plan.probe(left, r) + plan.emitted(l, r),
    decreases left.len(),
{
    let longer = left.push(l);
    if left.len() == 0 {
        assert(longer.skip(1) =~= Seq::empty());
        assert(longer[0] == l);
        assert(plan.probe(longer.skip(1), r) =~= Seq::empty());
        assert(plan.probe(left, r) =~= Seq::empty());
        assert(plan.probe(longer, r) =~= plan.probe(left, r) + plan.emitted(l, r));
    } else {
        lemma_probe_push(plan, left.skip(1), l, r);
        assert(longer.skip(1) =~= left.skip(1).push(l));
        assert(plan.probe(longer, r) =~= plan.probe(left, r) + plan.emitted(l, r));
    }
}

/// Looking only at the rows whose key has the code of the right row's key
/// loses no match: what is picked there is the whole probe.
pub proof fn lemma_picked_is_probe(plan: Equijoin, left: Seq<Seq<Datum>>, r: Seq<Datum>, n: nat)
    requires
        n <= left.len() <= usize::MAX,
        plan.right_key < r.len(),
        forall|i: int| 0 <= i < left.len() ==> plan.left_key < (#[trigger] left[i]).len(),
    ensures
        picked(
            plan,
            left,
            positions(left, plan.left_key, key_code(r[plan.right_key as int]), n),
            r,
        ) == plan.probe(left.take(n as int), r),
    decreases n,
{
    let code = key_code(r[plan.right_key as int]);
    if n == 0 {
        assert(left.take(0) =~= Seq::empty());
    } else {
        let m = (n - 1) as nat;
        let before = positions(left, plan.left_key, code, m);
        let row = left[n - 1];
        lemma_picked_is_probe(plan, left, r, m);
        lemma_probe_push(plan, left.take(m as int), row, r);
        assert(left.take(m as int).push(row) =~= left.take(n as int));
        if key_code(row[plan.left_key as int]) == code {
            let at = before.push(m as usize);
            assert(at.drop_last() =~= before);
        } else {
            assert(plan.emitted(row, r) =~= Seq::empty());
            assert(plan.probe(left.take(m as int), r) + plan.emitted(row, r) =~= plan.probe(
                left.take(m as int),
                r,
            ));
        }
    }
}

/// Enters position `at` in the index under `code`, after the positions
/// already there.
pub fn enter(index: &mut HashMap<u64, Vec<usize>>, code: u64, at: usize)
    ensures
        bucket(final(index)@, code) == bucket(old(index)@, code).push(at),
        forall|other: u64| other != code ==> bucket(final(index)@, other) == bucket(old(index)@, other),
{
    let mut list = match index.remove(&code) {
        Some(list) => list,
        None => Vec::new(),
    };
    list.push(at);
    index.insert(code, list);
    assert forall|other: u64| other != code implies bucket(index@, other) == bucket(
        old(index)@,
        other,
    ) by {}
}

} // verus!
