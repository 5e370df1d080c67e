//! Row assembly: building an output row by copying chosen columns of one or
//! more input rows.
use vstd::prelude::*;
use std::rc::Rc;
use crate::row::{row_views, Row};
use crate::schema::{fits, schema_views, RowError, RowSchema};
use crate::value::{Datum, Type, Value};

verus! {

/// What a [`JoinSchema`] declares: for each output column, the input row it
/// is copied from, the column of that row, and the type it must have.
pub struct Projection {
    pub sources: Seq<usize>,
    pub columns: Seq<usize>,
    pub types: Seq<Type>,
}

impl Projection {
    /// The three lists describe the same number of output columns.
    pub open spec fn wf(self) -> bool {
        self.sources.len() == self.columns.len() == self.types.len()
    }

    /// The number of output columns.
    pub open spec fn arity(self) -> nat {
        self.sources.len()
    }

    /// What stands in the way of output column `i`, if anything: a source
    /// row or column that does not exist, or a value of another type than
    /// declared.
    pub open spec fn column_fault(self, rows: Seq<Seq<Datum>>, i: int) -> Option<RowError> {
        let src = self.sources[i] as int;
        let col = self.columns[i] as int;
        if src >= rows.len() || col >= rows[src].len() {
            Some(RowError::IndexOutOfRange)
        } else if rows[src][col].kind() != self.types[i] {
            Some(
                RowError::TypeMismatch {
                    index: i as usize,
                    expected: self.types[i],
                    actual: rows[src][col].kind(),
                },
            )
        } else {
            None
        }
    }

    /// The first `n` output columns can be built from `rows`.
    pub open spec fn assembles_upto(self, rows: Seq<Seq<Datum>>, n: int) -> bool {
        forall|i: int| 0 <= i < n ==> (#[trigger] self.column_fault(rows, i)) is None
    }

    /// Every output column can be built from `rows`.
    pub open spec fn assembles(self, rows: Seq<Seq<Datum>>) -> bool {
        self.assembles_upto(rows, self.arity() as int)
    }

    /// Output column `i` names an input row and a column of it that
    /// `inputs` declares with the output column's type.
    pub open spec fn column_reads(self, inputs: Seq<Seq<Type>>, i: int) -> bool {
        let src = self.sources[i] as int;
        let col = self.columns[i] as int;
        src < inputs.len() && col < inputs[src].len() && inputs[src][col] == self.types[i]
    }

    /// Every output column reads a column that `inputs` declares with the
    /// output column's type.
    pub open spec fn reads(self, inputs: Seq<Seq<Type>>) -> bool {
        forall|i: int| 0 <= i < self.arity() ==> #[trigger] self.column_reads(inputs, i)
    }

    /// A projection that reads what the input schemas declare can build its
    /// output from any rows that fit those schemas.
    pub proof fn lemma_fitting_rows_assemble(self, inputs: Seq<Seq<Type>>, rows: Seq<Seq<Datum>>)
        requires
            self.reads(inputs),
            rows.len() == inputs.len(),
            forall|k: int| 0 <= k < rows.len() ==> fits(inputs[k], #[trigger] rows[k]),
        ensures
            self.assembles(rows),
    {
        assert forall|i: int| 0 <= i < self.arity() implies (#[trigger] self.column_fault(
            rows,
            i,
        )) is None by {
            assert(self.column_reads(inputs, i));
            let src = self.sources[i] as int;
            let col = self.columns[i] as int;
            assert(fits(inputs[src], rows[src]));
            assert(rows[src][col].kind() == inputs[src][col]);
        }
    }

    /// The output row built from `rows`.
    pub open spec fn assembled(self, rows: Seq<Seq<Datum>>) -> Seq<Datum> {
        Seq::new(self.arity(), |i: int| rows[self.sources[i] as int][self.columns[i] as int])
    }
}

/// A declarative column mapping from a list of input rows to one output row.
pub struct JoinSchema {
    source_iter: Vec<usize>,
    iter_index: Vec<usize>,
    output_schema: RowSchema,
}

impl View for JoinSchema {
    type V = Projection;

    closed spec fn view(&self) -> Projection {
        Projection {
            sources: self.source_iter@,
            columns: self.iter_index@,
            types: self.output_schema@,
        }
    }
}

impl JoinSchema {
    /// Output column `i` is column `iter_index[i]` of input row
    /// `source_iter[i]`, declared with the type of column `i` of
    /// `output_schema`.
    pub fn new(source_iter: Vec<usize>, iter_index: Vec<usize>, output_schema: RowSchema) -> (schema:
        JoinSchema)
        requires
            source_iter@.len() == iter_index@.len() == output_schema@.len(),
        ensures
            schema@.wf(),
            schema@.sources == source_iter@,
            schema@.columns == iter_index@,
            schema@.types == output_schema@,
    {
        JoinSchema { source_iter, iter_index, output_schema }
    }

    /// Whether every output column reads a column that the input schemas
    /// declare, with the type the output column declares.
    pub fn reads(&self, inputs: &Vec<RowSchema>) -> (ok: bool)
        requires
            self@.wf(),
        ensures
            ok == self@.reads(schema_views(inputs@)),
    {
        let ghost declared = schema_views(inputs@);
        let n = self.source_iter.len();
        let mut i: usize = 0;
        while i < n
            invariant
                self@.wf(),
                declared == schema_views(inputs@),
                n == self@.arity(),
                i <= n,
                forall|j: int| 0 <= j < i ==> #[trigger] self@.column_reads(declared, j),
            decreases n - i,
        {
            let source_idx = self.source_iter[i];
            let idx = self.iter_index[i];
            if source_idx >= inputs.len() || idx >= inputs[source_idx].len() {
                assert(!self@.column_reads(declared, i as int));
                return false;
            }
            if inputs[source_idx].column_type(idx) != self.output_schema.column_type(i) {
                assert(!self@.column_reads(declared, i as int));
                return false;
            }
            assert(self@.column_reads(declared, i as int));
            i += 1;
        }
        true
    }

    /// Builds the output row from `rows`, each value a copy of the column it
    /// comes from. Fails at the first output column that cannot be built,
    /// with that column's fault.
    pub fn generate_from_rows(&self, rows: Vec<Rc<Row>>) -> (built: Result<Row, RowError>)
        requires
            self@.wf(),
        ensures
            built is Ok <==> self@.assembles(row_views(rows@)),
            match built {
                Ok(row) => row@ == self@.assembled(row_views(rows@)),
                Err(e) => exists|i: int|
                    {
                        &&& 0 <= i < self@.arity()
                        &&& self@.assembles_upto(row_views(rows@), i)
                        &&& #[trigger] self@.column_fault(row_views(rows@), i) == Some(e)
                    },
            },
    {
        let ghost inputs = row_views(rows@);
        let mut data: Vec<Value> = Vec::new();
        let n = self.source_iter.len();
        let mut i: usize = 0;
        while i < n
            invariant
                self@.wf(),
                inputs == row_views(rows@),
                n == self@.arity(),
                i <= n,
                self@.assembles_upto(inputs, i as int),
                data@.len() == i,
                forall|j: int|
                    0 <= j < i ==> (#[trigger] data@[j])@ == inputs[self@.sources[j] as int][self@.columns[j] as int],
            decreases n - i,
        {
            let source_idx = self.source_iter[i];
            let idx = self.iter_index[i];
            let t = self.output_schema.column_type(i);
            if source_idx >= rows.len() {
                assert(self@.column_fault(inputs, i as int) == Some(RowError::IndexOutOfRange));
                return Err(RowError::IndexOutOfRange);
            }
            match rows[source_idx].value(idx) {
                None => {
                    assert(self@.column_fault(inputs, i as int) == Some(RowError::IndexOutOfRange));
                    return Err(RowError::IndexOutOfRange);
                },
                Some(v) => {
                    let actual = v.type_of();
                    if actual != t {
                        let e = RowError::TypeMismatch { index: i, expected: t, actual };
                        assert(self@.column_fault(inputs, i as int) == Some(e));
                        return Err(e);
                    }
                    assert(self@.column_fault(inputs, i as int) is None);
                    data.push(v.clone());
                },
            }
            i += 1;
        }
        let row = Row::from_values(data);
        assert(row@ =~= self@.assembled(inputs));
        Ok(row)
    }
}

} // verus!
