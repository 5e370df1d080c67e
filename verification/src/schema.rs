//! Row schemas: the declared type of each column of a family of rows.
use vstd::prelude::*;
use vstd::string::StringExecFns;
use crate::row::{contents, Row};
use crate::text::{append_decimal, append_value, decimal, type_label, type_text, value_text};
use crate::value::{Datum, Type, Value};

verus! {

/// Why a row could not be built.
#[derive(Debug, Clone, Copy, PartialEq, Eq, Structural)]
pub enum RowError {
    /// The number of values differs from the number of columns.
    ArityMismatch { columns: usize, values: usize },
    /// The value at `index` is of type `actual` where `expected` is declared.
    TypeMismatch { index: usize, expected: Type, actual: Type },
    /// A source row or a column that does not exist was asked for.
    IndexOutOfRange,
}

/// The declared column types of a family of rows, in column order.
pub struct RowSchema {
    pub(crate) data_types: Vec<Type>,
}

impl View for RowSchema {
    type V = Seq<Type>;

    closed spec fn view(&self) -> Seq<Type> {
        self.data_types@
    }
}

/// A row fits a list of column types when it has one value for each column
/// and each value is of its column's type.
pub open spec fn fits(types: Seq<Type>, row: Seq<Datum>) -> bool {
    &&& row.len() == types.len()
    &&& forall|i: int| 0 <= i < row.len() ==> (#[trigger] row[i]).kind() == types[i]
}

/// Every one of `rows` fits `types`.
pub open spec fn all_fit(types: Seq<Type>, rows: Seq<Seq<Datum>>) -> bool {
    forall|i: int| 0 <= i < rows.len() ==> fits(types, #[trigger] rows[i])
}

/// The column types of a list of schemas, schema by schema.
pub open spec fn schema_views(schemas: Seq<RowSchema>) -> Seq<Seq<Type>> {
    Seq::new(schemas.len(), |i: int| schemas[i]@)
}

/// The text of field `i` of a row: its number, its value, its declared type,
/// and a separator unless it is the last field.
pub open spec fn field_text(types: Seq<Type>, row: Seq<Datum>, i: int) -> Seq<char> {
    "field "@ + decimal(i as nat) + ": "@ + value_text(row[i]) + " (type "@ + type_text(types[i])
        + ")"@ + if i < row.len() - 1 {
        " - "@
    } else {
        Seq::<char>::empty()
    }
}

/// The text of the first `n` fields of a row, in order.
pub open spec fn fields_text(types: Seq<Type>, row: Seq<Datum>, n: nat) -> Seq<char>
    decreases n,
{
    if n == 0 {
        Seq::<char>::empty()
    } else {
        fields_text(types, row, (n - 1) as nat) + field_text(types, row, n - 1)
    }
}

impl Clone for RowSchema {
    fn clone(&self) -> (copy: RowSchema)
        ensures
            copy@ == self@,
    {
        let mut data_types: Vec<Type> = Vec::new();
        let mut i: usize = 0;
        while i < self.data_types.len()
            invariant
                i <= self.data_types@.len(),
                data_types@ == self.data_types@.take(i as int),
            decreases self.data_types@.len() - i,
        {
            data_types.push(self.data_types[i]);
            assert(data_types@ =~= self.data_types@.take(i + 1));
            i += 1;
        }
        assert(data_types@ =~= self.data_types@);
        RowSchema { data_types }
    }
}

impl RowSchema {
    /// A schema with one column for each of `data_types`, in that order.
    pub fn new(data_types: Vec<Type>) -> (schema: RowSchema)
        ensures
            schema@ == data_types@,
    {
        RowSchema { data_types }
    }

    /// The number of columns.
    pub fn len(&self) -> (n: usize)
        ensures
            n == self@.len(),
    {
        self.data_types.len()
    }

    /// The declared type of column `index`.
    pub fn column_type(&self, index: usize) -> (t: Type)
        requires
            index < self@.len(),
        ensures
            t == self@[index as int],
    {
        self.data_types[index]
    }

    /// Whether `row` fits this schema: one value for each column, each of
    /// its column's type.
    pub fn admits(&self, row: &Row) -> (ok: bool)
        ensures
            ok == fits(self@, row@),
    {
        if row.len() != self.data_types.len() {
            return false;
        }
        let mut i: usize = 0;
        while i < self.data_types.len()
            invariant
                i <= self.data_types@.len(),
                row@.len() == self.data_types@.len(),
                forall|j: int| 0 <= j < i ==> (#[trigger] row@[j]).kind() == self@[j],
            decreases self.data_types@.len() - i,
        {
            match row.value(i) {
                Some(v) => {
                    if v.type_of() != self.data_types[i] {
                        assert(row@[i as int].kind() != self@[i as int]);
                        return false;
                    }
                },
                None => {
                    return false;
                },
            }
            i += 1;
        }
        true
    }

    /// The display text of a whole row under this schema.
    pub open spec fn render(&self, row: Seq<Datum>) -> Seq<char> {
        fields_text(self@, row, row.len())
    }

    /// Builds a row from `values` if they fit the schema. Otherwise reports
    /// a wrong count, or else the first value of the wrong type.
    pub fn make_row(&self, values: Vec<Value>) -> (built: Result<Row, RowError>)
        ensures
            built is Ok <==> fits(self@, contents(values@)),
            match built {
                Ok(row) => row@ == contents(values@),
                Err(RowError::ArityMismatch { columns, values: given }) => {
                    &&& values@.len() != self@.len()
                    &&& columns == self@.len()
                    &&& given == values@.len()
                },
                Err(RowError::TypeMismatch { index, expected, actual }) => {
                    &&& values@.len() == self@.len()
                    &&& index < values@.len()
                    &&& fits(self@.take(index as int), contents(values@).take(index as int))
                    &&& expected == self@[index as int]
                    &&& actual == values@[index as int]@.kind()
                    &&& expected != actual
                },
                Err(RowError::IndexOutOfRange) => false,
            },
    {
        if values.len() != self.data_types.len() {
            return Err(
                RowError::ArityMismatch { columns: self.data_types.len(), values: values.len() },
            );
        }
        let mut i: usize = 0;
        while i < values.len()
            invariant
                i <= values@.len(),
                values@.len() == self.data_types@.len(),
                fits(self@.take(i as int), contents(values@).take(i as int)),
            decreases values@.len() - i,
        {
            let expected = self.data_types[i];
            let actual = values[i].type_of();
            if expected != actual {
                assert(contents(values@)[i as int].kind() != self@[i as int]);
                return Err(RowError::TypeMismatch { index: i, expected, actual });
            }
            assert(fits(self@.take(i + 1), contents(values@).take(i + 1))) by {
                assert forall|j: int| 0 <= j < i + 1 implies (#[trigger] contents(values@).take(
                    i + 1,
                )[j]).kind() == self@.take(i + 1)[j] by {
                    if j < i {
                        assert(contents(values@).take(i as int)[j] == contents(values@)[j]);
                    }
                }
            }
            i += 1;
        }
        assert(self@.take(i as int) =~= self@);
        assert(contents(values@).take(i as int) =~= contents(values@));
        Ok(Row::from_values(values))
    }

    /// Renders `row` as `field 0: .. (type ..) - field 1: ..`, one entry for
    /// each column, separated by ` - `.
    pub fn print(&self, r: &Row) -> (text: String)
        requires
            r@.len() == self@.len(),
        ensures
            text@ == self.render(r@),
    {
        let mut out = String::new();
        let n = r.len();
        let mut i: usize = 0;
        while i < n
            invariant
                i <= n,
                n == r@.len(),
                r@.len() == self@.len(),
                out@ == fields_text(self@, r@, i as nat),
            decreases n - i,
        {
            let ghost before = out@;
            out.append("field ");
            append_decimal(&mut out, i as u64);
            out.append(": ");
            match r.value(i) {
                Some(v) => {
                    append_value(&mut out, v);
                },
                None => {},
            }
            out.append(" (type ");
            out.append(type_label(self.data_types[i]));
            out.append(")");
            if i < n - 1 {
                out.append(" - ");
            }
            assert(out@ =~= before + field_text(self@, r@, i as int));
            i += 1;
        }
        out
    }
}

} // verus!
