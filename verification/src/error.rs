//! The typed failures the core reports.
//!
//! Every error propagates outward to the query's top-level caller; no layer
//! swallows one or downgrades it into a default or empty result. Structural
//! and configuration errors are raised at plan or build time, execution
//! errors abort the whole operator chain.

use vstd::prelude::*;

verus! {

/// The closed set of failures the core can report.
#[derive(Clone, Copy, Debug, PartialEq, Eq, Structural)]
pub enum ErrorCode {
    /// A rewrite or realization path that the core acknowledges as missing;
    /// it fails loudly instead of silently leaving the plan unchanged.
    NotImplemented,
    /// A plan shape with no meaningful incremental interpretation; rejected
    /// when the plan is realized for streaming, before anything executes.
    StreamUnsupported,
    /// A tree reconstruction was handed a child list of the wrong length.
    ArityMismatch { expected: usize, actual: usize },
    /// A column index does not lie below the width of the schema it indexes.
    InvalidColumnIndex { index: usize, width: usize },
    /// An aggregate accumulator left the representable range of its type.
    NumericOverflow,
    /// A cell value does not fit the range of its column's declared type.
    ValueOutOfRange,
    /// The columns handed to a batch builder do not share one length.
    ColumnLengthMismatch,
    /// A batch's column types do not match the schema it was declared with.
    SchemaMismatch,
    /// An aggregate call names a return type its function does not produce.
    MalformedAggSpec,
    /// An internal invariant did not hold.
    InternalError,
}

} // verus!
