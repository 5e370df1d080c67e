//! The scan operator: the rows of a table in ascending key order.
use vstd::prelude::*;
use vstd::std_specs::btree::{increasing_seq, key_obeys_cmp_spec, spec_btree_map_iter};
use vstd::std_specs::cmp::OrdSpec;
use vstd::std_specs::iter::IteratorSpec;
use std::collections::BTreeMap;
use std::rc::Rc;
use crate::row::{row_views, Row};
use crate::schema::{all_fit, fits, RowSchema};
use crate::source::{share, RowSource};
use crate::value::{Datum, Type};

verus! {

/// `rows` are the contents of the rows of `table`, one for each entry, and
/// `keys` are their keys, in ascending order.
pub open spec fn in_key_order<T>(
    table: Map<T, Rc<Row>>,
    keys: Seq<T>,
    rows: Seq<Seq<Datum>>,
) -> bool {
    &&& keys.len() == rows.len()
    &&& increasing_seq(keys)
    &&& forall|k: T| table.contains_key(k) <==> keys.contains(k)
    &&& forall|i: int| 0 <= i < keys.len() ==> rows[i] == table[#[trigger] keys[i]]@
}

/// For `u32` keys, ascending order is the order of the numbers: each key is
/// less than every later key.
pub proof fn lemma_ascending_u32_keys(keys: Seq<u32>)
    ensures
        increasing_seq(keys) <==> forall|i: int, j: int|
            0 <= i < j < keys.len() ==> keys[i] < keys[j],
{
    broadcast use vstd::laws_cmp::group_laws_cmp;

    assert(vstd::laws_cmp::obeys_cmp::<u32>());
    vstd::std_specs::btree::axiom_increasing_seq_meaning(keys);
    if increasing_seq(keys) {
        assert forall|i: int, j: int| 0 <= i < j < keys.len() implies keys[i] < keys[j] by {
            assert(keys[i].cmp_spec(&keys[j]) is Less);
        }
    }
    if forall|i: int, j: int| 0 <= i < j < keys.len() ==> keys[i] < keys[j] {
        assert forall|i: int, j: int| 0 <= i < j < keys.len() implies keys[i].cmp_spec(
            &keys[j],
        ) is Less by {
            assert(keys[i] < keys[j]);
        }
    }
}

/// Every row of `table` fits the column types `types`.
pub open spec fn table_typed<T>(table: Map<T, Rc<Row>>, types: Seq<Type>) -> bool {
    forall|k: T| table.contains_key(k) ==> fits(types, (#[trigger] table[k])@)
}

/// Rows that are the rows of a table, in any order, fit the column types
/// that every row of the table fits.
pub proof fn lemma_rows_of_typed_table<T>(
    table: Map<T, Rc<Row>>,
    types: Seq<Type>,
    keys: Seq<T>,
    rows: Seq<Seq<Datum>>,
)
    requires
        table_typed(table, types),
        in_key_order(table, keys, rows),
    ensures
        all_fit(types, rows),
{
    assert forall|i: int| 0 <= i < rows.len() implies fits(types, #[trigger] rows[i]) by {
        assert(keys.contains(keys[i]));
        assert(rows[i] == table[keys[i]]@);
    }
}

/// Whether every row of `map` fits `schema`.
pub fn table_fits<T: Ord>(schema: &RowSchema, map: &BTreeMap<T, Rc<Row>>) -> (ok: bool)
    requires
        key_obeys_cmp_spec::<T>(),
    ensures
        ok == table_typed(map@, schema@),
{
    for entry in it: map.iter()
        invariant
            it.seq() == spec_btree_map_iter(map).remaining(),
            forall|j: int| 0 <= j < it.index() ==> fits(schema@, (#[trigger] it.seq()[j]).1@),
    {
        if !schema.admits(entry.1) {
            proof {
                let k = *entry.0;
                assert(map@.contains_key(k) && map@[k] == *entry.1);
            }
            return false;
        }
    }
    proof {
        let items = spec_btree_map_iter(map).remaining();
        assert forall|k: T| map@.contains_key(k) implies fits(schema@, (#[trigger] map@[k])@) by {
            assert(items.contains((&k, &map@[k])));
            let i = choose|i: int| 0 <= i < items.len() && items[i] == (&k, &map@[k]);
            assert(fits(schema@, items[i].1@));
        }
    }
    true
}

/// The rows of a table as a source, in ascending key order. The table is
/// only read.
pub struct Scan<'a, T> where T: Ord {
    table: &'a BTreeMap<T, Rc<Row>>,
    rows: Vec<Rc<Row>>,
    position: usize,
}

impl<'a, T> Scan<'a, T> where T: Ord {
    /// The contents of all rows of the scan, those handed out included.
    pub closed spec fn all_rows(&self) -> Seq<Seq<Datum>> {
        row_views(self.rows@)
    }

    /// The number of rows handed out so far.
    pub closed spec fn handed_out(&self) -> int {
        self.position as int
    }

    /// A scan of `map` from its least key on: one row for each entry,
    /// ascending by key.
    pub fn new(map: &'a BTreeMap<T, Rc<Row>>) -> (scan: Self)
        requires
            key_obeys_cmp_spec::<T>(),
        ensures
            scan.ready(),
            scan.handed_out() == 0,
            scan.pending() == scan.all_rows(),
            scan.pending().len() == map@.dom().len(),
            exists|keys: Seq<T>| in_key_order(map@, keys, scan.pending()),
            forall|types: Seq<Type>| #[trigger]
                table_typed(map@, types) ==> all_fit(types, scan.pending()),
    {
        let mut rows: Vec<Rc<Row>> = Vec::new();
        for entry in it: map.iter()
            invariant
                rows@.len() == it.index(),
                it.seq() == spec_btree_map_iter(map).remaining(),
                forall|j: int| 0 <= j < rows@.len() ==> rows@[j] == *it.seq()[j].1,
        {
            rows.push(share(entry.1));
        }
        let scan = Scan { table: map, rows, position: 0 };
        assert(scan.pending() =~= scan.all_rows());
        proof {
            let items = spec_btree_map_iter(map).remaining();
            let keys = items.map_values(|kv: (&T, &Rc<Row>)| *kv.0);
            assert(rows@.len() == items.len());
            assert(increasing_seq(keys));
            assert forall|k: T| map@.contains_key(k) implies keys.contains(k) by {
                assert(items.contains((&k, &map@[k])));
                let i = choose|i: int| 0 <= i < items.len() && items[i] == (&k, &map@[k]);
                assert(keys[i] == k);
            }
            assert forall|k: T| keys.contains(k) implies map@.contains_key(k) by {
                let i = choose|i: int| 0 <= i < keys.len() && keys[i] == k;
                assert(map@.contains_key(*items[i].0));
            }
            assert forall|i: int| 0 <= i < keys.len() implies scan.pending()[i] == map@[#[trigger] keys[i]]@ by {
                assert(map@[*items[i].0] == *items[i].1);
            }
            assert(in_key_order(map@, keys, scan.pending()));
            assert forall|types: Seq<Type>| #[trigger] table_typed(map@, types) implies all_fit(
                types,
                scan.pending(),
            ) by {
                lemma_rows_of_typed_table(map@, types, keys, scan.pending());
            }
        }
        scan
    }
}

impl<'a, T> RowSource for Scan<'a, T> where T: Ord {
    closed spec fn ready(&self) -> bool {
        self.position <= self.rows@.len()
    }

    closed spec fn pending(&self) -> Seq<Seq<Datum>> {
        row_views(self.rows@).skip(self.position as int)
    }

    fn next(&mut self) -> (row: Option<Rc<Row>>)
        ensures
            final(self).all_rows() == old(self).all_rows(),
            final(self).handed_out() == old(self).handed_out() + if row is Some {
                1int
            } else {
                0int
            },
    {
        if self.position < self.rows.len() {
            let row = share(&self.rows[self.position]);
            self.position += 1;
            assert(self.pending() =~= old(self).pending().skip(1));
            Some(row)
        } else {
            None
        }
    }
}

} // verus!
