//! Aggregate-call descriptions shared by the logical plan and the executor.

use vstd::prelude::*;
use crate::catalog::DataType;
use crate::chunk::DataChunk;
use crate::error::ErrorCode;

verus! {

/// The value an aggregate starts from before it has seen any row: its
/// identity.
pub open spec fn agg_init(kind: AggKind) -> int {
    0
}

/// One row folded into a running aggregate.
pub open spec fn agg_step(kind: AggKind, acc: int, row: Seq<i64>, arg: int) -> int {
    match kind {
        AggKind::Sum => acc + row[arg],
        AggKind::Count => acc + 1,
    }
}

/// The aggregate of a whole row sequence, folded in row order.
pub open spec fn agg_over(kind: AggKind, arg: int, rows: Seq<Seq<i64>>) -> int
    decreases rows.len(),
{
    if rows.len() == 0 {
        agg_init(kind)
    } else {
        agg_step(kind, agg_over(kind, arg, rows.drop_last()), rows.last(), arg)
    }
}

/// Whether every running value the fold passes through stays representable
/// as an `i64`.
pub open spec fn agg_prefix_in_range(kind: AggKind, arg: int, rows: Seq<Seq<i64>>) -> bool
    decreases rows.len(),
{
    if rows.len() == 0 {
        true
    } else {
        agg_prefix_in_range(kind, arg, rows.drop_last()) && i64::MIN <= agg_over(kind, arg, rows)
            <= i64::MAX
    }
}

/// The closed set of aggregate functions the core executes.
#[derive(Clone, Copy, Debug, PartialEq, Eq, Structural)]
pub enum AggKind {
    /// The sum of the argument column over the group's rows.
    Sum,
    /// The number of rows in the group.
    Count,
}

/// One aggregate call of an aggregation node: the function, the argument
/// column it reads, and the type of the scalar it produces.
#[derive(Clone, Copy, Debug, PartialEq, Eq, Structural)]
pub struct AggCall {
    pub kind: AggKind,
    pub arg: usize,
    pub return_type: DataType,
}

/// The type an aggregate function produces.
pub open spec fn agg_return_type(kind: AggKind) -> DataType {
    match kind {
        AggKind::Sum => DataType::Int64,
        AggKind::Count => DataType::Int64,
    }
}

/// Builds the accumulator of one aggregate call; constructed once per call
/// at executor-build time, after validating the call.
#[derive(Clone, Copy, Debug, PartialEq, Eq, Structural)]
pub struct AggStateFactory {
    pub call: AggCall,
}

impl AggStateFactory {
    /// Validate an aggregate call. A call whose declared return type is not
    /// what its function produces is a malformed specification, rejected
    /// here at build time.
    pub fn new(call: &AggCall) -> (r: Result<AggStateFactory, ErrorCode>)
        ensures
            r is Ok <==> call.return_type == agg_return_type(call.kind),
            match r {
                Ok(f) => f.call == *call,
                Err(e) => e == ErrorCode::MalformedAggSpec,
            },
    {
        if matches!(call.return_type, DataType::Int64) {
            Ok(AggStateFactory { call: *call })
        } else {
            proof {
                assert(call.return_type != agg_return_type(call.kind));
            }
            Err(ErrorCode::MalformedAggSpec)
        }
    }

    /// The type of the scalar this aggregate finally produces.
    pub fn get_return_type(&self) -> (r: DataType)
        ensures
            r == self.call.return_type,
    {
        self.call.return_type
    }

    /// A fresh accumulator holding the aggregate's identity.
    pub fn create_agg_state(&self) -> (r: AggState)
        ensures
            r.call == self.call,
            r.acc == agg_init(self.call.kind),
    {
        AggState { call: self.call, acc: 0 }
    }
}

/// One running accumulator: the mutable per-group, per-call state, updated
/// once per row and turned into its output scalar at emission.
pub struct AggState {
    pub call: AggCall,
    pub acc: i64,
}

impl AggState {
    /// The running value this state would hold after folding in one row,
    /// or nothing if that value leaves the `i64` range.
    pub fn next_acc(&self, chunk: &DataChunk, row_id: usize) -> (r: Option<i64>)
        requires
            chunk.wf(),
            row_id < chunk.cardinality,
            self.call.arg < chunk.columns@.len(),
        ensures
            match r {
                Some(v) => v == agg_step(
                    self.call.kind,
                    self.acc as int,
                    chunk.spec_rows()[row_id as int],
                    self.call.arg as int,
                ),
                None => !(i64::MIN <= agg_step(
                    self.call.kind,
                    self.acc as int,
                    chunk.spec_rows()[row_id as int],
                    self.call.arg as int,
                ) <= i64::MAX),
            },
            r is Some <==> i64::MIN <= agg_step(
                self.call.kind,
                self.acc as int,
                chunk.spec_rows()[row_id as int],
                self.call.arg as int,
            ) <= i64::MAX,
    {
        match self.call.kind {
            AggKind::Sum => {
                let v = chunk.value_at(row_id, self.call.arg);
                self.acc.checked_add(v)
            },
            AggKind::Count => self.acc.checked_add(1),
        }
    }

    /// Fold one row of the batch into this accumulator. A value that leaves
    /// the representable range aborts with an overflow error and leaves the
    /// state unchanged.
    pub fn update_with_row(&mut self, chunk: &DataChunk, row_id: usize) -> (r: Result<
        (),
        ErrorCode,
    >)
        requires
            chunk.wf(),
            row_id < chunk.cardinality,
            old(self).call.arg < chunk.columns@.len(),
        ensures
            final(self).call == old(self).call,
            match r {
                Ok(()) => final(self).acc == agg_step(
                    old(self).call.kind,
                    old(self).acc as int,
                    chunk.spec_rows()[row_id as int],
                    old(self).call.arg as int,
                ),
                Err(e) => {
                    &&& e == ErrorCode::NumericOverflow
                    &&& *final(self) == *old(self)
                },
            },
            r is Ok <==> i64::MIN <= agg_step(
                old(self).call.kind,
                old(self).acc as int,
                chunk.spec_rows()[row_id as int],
                old(self).call.arg as int,
            ) <= i64::MAX,
    {
        match self.next_acc(chunk, row_id) {
            Some(v) => {
                self.acc = v;
                Ok(())
            },
            None => Err(ErrorCode::NumericOverflow),
        }
    }

    /// The accumulator's final scalar, produced once at emission.
    pub fn output(&self) -> (r: i64)
        ensures
            r == self.acc,
    {
        self.acc
    }
}

} // verus!
