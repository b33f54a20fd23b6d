//! Columnar batches: the unit of data movement between physical operators.
//!
//! A batch is a collection of typed columns of one shared length, plus that
//! cardinality. It is immutable once built: a transformed batch is always a
//! new object. Cells are carried as `i64`; a column typed `Int32` holds only
//! values in the 32-bit range, which the builder checks.

use vstd::prelude::*;
use crate::catalog::DataType;
use crate::error::ErrorCode;

verus! {

/// Whether a cell value lies in the 32-bit signed range.
pub open spec fn in_i32_range(v: i64) -> bool {
    i32::MIN <= v <= i32::MAX
}

/// One typed column of a batch.
pub struct Column {
    pub data_type: DataType,
    pub values: Vec<i64>,
}

impl Column {
    /// A column typed `Int32` holds only values of the 32-bit range.
    pub open spec fn wf(self) -> bool {
        self.data_type == DataType::Int32 ==> forall|i: int|
            0 <= i < self.values@.len() ==> in_i32_range(#[trigger] self.values@[i])
    }

    /// Build a column from its type and values.
    pub fn new(data_type: DataType, values: Vec<i64>) -> (r: Result<Column, ErrorCode>)
        ensures
            match r {
                Ok(c) => {
                    &&& c.data_type == data_type
                    &&& c.values@ == values@
                    &&& c.wf()
                },
                Err(e) => {
                    &&& e == ErrorCode::ValueOutOfRange
                    &&& data_type == DataType::Int32
                    &&& exists|i: int| 0 <= i < values@.len() && !in_i32_range(
                        #[trigger] values@[i],
                    )
                },
            },
            r is Ok <==> (data_type == DataType::Int32 ==> forall|i: int|
                0 <= i < values@.len() ==> in_i32_range(#[trigger] values@[i])),
    {
        let is_int32 = matches!(data_type, DataType::Int32);
        proof {
            assert(is_int32 == (data_type == DataType::Int32));
        }
        if is_int32 {
            let n = values.len();
            let mut i: usize = 0;
            while i < n
                invariant
                    n == values@.len(),
                    i <= n,
                    data_type == DataType::Int32,
                    forall|k: int| 0 <= k < i ==> in_i32_range(#[trigger] values@[k]),
                decreases n - i,
            {
                let v = values[i];
                if v < i32::MIN as i64 || v > i32::MAX as i64 {
                    proof {
                        assert(!in_i32_range(values@[i as int]));
                    }
                    return Err(ErrorCode::ValueOutOfRange);
                }
                i += 1;
            }
        }
        Ok(Column { data_type, values })
    }
}

/// A columnar batch: typed columns of one shared length.
pub struct DataChunk {
    pub columns: Vec<Column>,
    pub cardinality: usize,
}

impl DataChunk {
    /// Every column has the batch's cardinality and respects its type's
    /// range.
    pub open spec fn wf(self) -> bool {
        forall|j: int| 0 <= j < self.columns@.len() ==> (#[trigger] self.columns@[j].values@.len()
            == self.cardinality && self.columns@[j].wf())
    }

    /// The column types, in column order.
    pub open spec fn spec_types(self) -> Seq<DataType> {
        self.columns@.map_values(|c: Column| c.data_type)
    }

    /// The batch as rows: row `i` holds cell `i` of each column, in column
    /// order.
    pub open spec fn spec_rows(self) -> Seq<Seq<i64>> {
        Seq::new(
            self.cardinality as nat,
            |i: int| Seq::new(self.columns@.len() as nat, |j: int| self.columns@[j].values@[i]),
        )
    }

    /// Build a batch from its columns; they must share one length. A batch
    /// of no columns holds no rows.
    pub fn new(columns: Vec<Column>) -> (r: Result<DataChunk, ErrorCode>)
        requires
            forall|j: int| 0 <= j < columns@.len() ==> (#[trigger] columns@[j]).wf(),
        ensures
            match r {
                Ok(c) => {
                    &&& c.columns@ == columns@
                    &&& c.wf()
                },
                Err(e) => e == ErrorCode::ColumnLengthMismatch,
            },
            r is Ok <==> (forall|j: int| 0 <= j < columns@.len()
                ==> (#[trigger] columns@[j]).values@.len() == columns@[0].values@.len()),
    {
        let cardinality: usize = if columns.len() == 0 {
            0
        } else {
            columns[0].values.len()
        };
        let n = columns.len();
        let mut j: usize = 0;
        while j < n
            invariant
                n == columns@.len(),
                j <= n,
                n > 0 ==> cardinality == columns@[0].values@.len(),
                n == 0 ==> cardinality == 0,
                forall|k: int| 0 <= k < j ==> (#[trigger] columns@[k]).values@.len()
                    == cardinality,
            decreases n - j,
        {
            if columns[j].values.len() != cardinality {
                return Err(ErrorCode::ColumnLengthMismatch);
            }
            j += 1;
        }
        Ok(DataChunk { columns, cardinality })
    }

    /// The number of rows.
    pub fn cardinality(&self) -> (r: usize)
        ensures
            r == self.cardinality,
    {
        self.cardinality
    }

    /// The number of columns.
    pub fn column_count(&self) -> (r: usize)
        ensures
            r == self.columns@.len(),
    {
        self.columns.len()
    }

    /// The cell of row `row` in column `col`.
    pub fn value_at(&self, row: usize, col: usize) -> (r: i64)
        requires
            self.wf(),
            row < self.cardinality,
            col < self.columns@.len(),
        ensures
            r == self.spec_rows()[row as int][col as int],
    {
        self.columns[col].values[row]
    }
}

} // verus!
