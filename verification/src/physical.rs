//! Dual physical realization: one-shot batch plans and incremental
//! streaming dataflow plans.
//!
//! `to_batch` converts a logical tree into a physical plan that, once
//! executed, produces its full output and signals completion. `to_stream`
//! first applies a logical rewrite that must certify the tree is
//! stream-safe, then converts into an operator graph that could maintain
//! its output under inserts and retractions; a shape with no meaningful
//! incremental interpretation is rejected here, at plan time, never at
//! execution time. Both conversions keep every node's declared output
//! schema: what a physical node produces is what its logical node declared.

use vstd::prelude::*;
use crate::agg::AggCall;
use crate::catalog::Schema;
use crate::error::ErrorCode;
use crate::expr::{ColIndexMapping, Condition};
use crate::plan_node::{rc_clone, PlanNode, PlanRef};

verus! {

/// A one-shot physical plan node.
pub enum BatchPlan {
    Scan { table_id: usize, output_cols: Vec<usize>, schema: Schema },
    GenerateSeries { start: i64, stop: i64, step: i64, schema: Schema },
    Project { input: Box<BatchPlan>, cols: Vec<usize>, schema: Schema },
    Filter { input: Box<BatchPlan>, predicate: Condition, schema: Schema },
    NestedLoopJoin { left: Box<BatchPlan>, right: Box<BatchPlan>, on: Condition, schema: Schema },
    HashAgg {
        input: Box<BatchPlan>,
        group_keys: Vec<usize>,
        agg_calls: Vec<AggCall>,
        schema: Schema,
    },
}

impl BatchPlan {
    /// The schema this physical node produces.
    pub open spec fn spec_schema(self) -> Schema {
        match self {
            BatchPlan::Scan { schema, .. } => schema,
            BatchPlan::GenerateSeries { schema, .. } => schema,
            BatchPlan::Project { schema, .. } => schema,
            BatchPlan::Filter { schema, .. } => schema,
            BatchPlan::NestedLoopJoin { schema, .. } => schema,
            BatchPlan::HashAgg { schema, .. } => schema,
        }
    }
}

/// An incremental streaming plan node.
pub enum StreamPlan {
    TableScan { table_id: usize, output_cols: Vec<usize>, schema: Schema },
    Project { input: Box<StreamPlan>, cols: Vec<usize>, schema: Schema },
    Filter { input: Box<StreamPlan>, predicate: Condition, schema: Schema },
    HashJoin { left: Box<StreamPlan>, right: Box<StreamPlan>, on: Condition, schema: Schema },
    HashAgg {
        input: Box<StreamPlan>,
        group_keys: Vec<usize>,
        agg_calls: Vec<AggCall>,
        schema: Schema,
    },
}

impl StreamPlan {
    /// The schema this physical node produces.
    pub open spec fn spec_schema(self) -> Schema {
        match self {
            StreamPlan::TableScan { schema, .. } => schema,
            StreamPlan::Project { schema, .. } => schema,
            StreamPlan::Filter { schema, .. } => schema,
            StreamPlan::HashJoin { schema, .. } => schema,
            StreamPlan::HashAgg { schema, .. } => schema,
        }
    }
}

/// Whether the tree converts to a one-shot batch plan: a multi-join has no
/// batch counterpart yet — realizing it is an acknowledged gap that fails
/// loudly instead of silently producing a wrong shape.
pub open spec fn batch_convertible(p: PlanNode) -> bool
    decreases p,
{
    match p {
        PlanNode::Scan(_) => true,
        PlanNode::GenerateSeries(_) => true,
        PlanNode::Project(n) => batch_convertible(*n.input),
        PlanNode::Filter(n) => batch_convertible(*n.input),
        PlanNode::Join(n) => batch_convertible(*n.left) && batch_convertible(*n.right),
        PlanNode::MultiJoin(_) => false,
        PlanNode::Agg(n) => batch_convertible(*n.input),
    }
}

/// Whether the tree has an incremental interpretation: a generating series
/// has none (its rows are not keyed by anything revisable), and a
/// multi-join's streaming rewrite is an acknowledged gap.
pub open spec fn stream_convertible(p: PlanNode) -> bool
    decreases p,
{
    match p {
        PlanNode::Scan(_) => true,
        PlanNode::GenerateSeries(_) => false,
        PlanNode::Project(n) => stream_convertible(*n.input),
        PlanNode::Filter(n) => stream_convertible(*n.input),
        PlanNode::Join(n) => stream_convertible(*n.left) && stream_convertible(*n.right),
        PlanNode::MultiJoin(_) => false,
        PlanNode::Agg(n) => stream_convertible(*n.input),
    }
}

/// Whether the batch plan is the faithful one-shot counterpart of the
/// logical tree: node for node the matching physical kind, carrying the
/// logical node's payload — columns, bounds, predicate, condition, grouping
/// keys and aggregate calls — and its declared schema.
pub open spec fn batch_matches(p: PlanNode, b: BatchPlan) -> bool
    decreases p,
{
    match p {
        PlanNode::Scan(n) => b matches BatchPlan::Scan { table_id, output_cols, schema }
            && table_id == n.table_id && output_cols@ == n.output_cols@ && schema.fields@
            == n.base.schema.fields@,
        PlanNode::GenerateSeries(n) => b matches BatchPlan::GenerateSeries {
            start,
            stop,
            step,
            schema,
        } && start == n.start && stop == n.stop && step == n.step && schema.fields@
            == n.base.schema.fields@,
        PlanNode::Project(n) => b matches BatchPlan::Project { input, cols, schema } && cols@
            == n.cols@ && schema.fields@ == n.base.schema.fields@ && batch_matches(
            *n.input,
            *input,
        ),
        PlanNode::Filter(n) => b matches BatchPlan::Filter { input, predicate, schema }
            && predicate.conjunctions@ == n.predicate.conjunctions@ && schema.fields@
            == n.base.schema.fields@ && batch_matches(*n.input, *input),
        PlanNode::Join(n) => b matches BatchPlan::NestedLoopJoin { left, right, on, schema }
            && on.conjunctions@ == n.on.conjunctions@ && schema.fields@
            == n.base.schema.fields@ && batch_matches(*n.left, *left) && batch_matches(
            *n.right,
            *right,
        ),
        PlanNode::MultiJoin(_) => false,
        PlanNode::Agg(n) => b matches BatchPlan::HashAgg { input, group_keys, agg_calls, schema }
            && group_keys@ == n.group_keys@ && agg_calls@ == n.agg_calls@ && schema.fields@
            == n.base.schema.fields@ && batch_matches(*n.input, *input),
    }
}

/// Whether the stream plan is the faithful incremental counterpart of the
/// logical tree, node for node, carrying each logical node's payload and
/// declared schema.
pub open spec fn stream_matches(p: PlanNode, s: StreamPlan) -> bool
    decreases p,
{
    match p {
        PlanNode::Scan(n) => s matches StreamPlan::TableScan { table_id, output_cols, schema }
            && table_id == n.table_id && output_cols@ == n.output_cols@ && schema.fields@
            == n.base.schema.fields@,
        PlanNode::GenerateSeries(_) => false,
        PlanNode::Project(n) => s matches StreamPlan::Project { input, cols, schema } && cols@
            == n.cols@ && schema.fields@ == n.base.schema.fields@ && stream_matches(
            *n.input,
            *input,
        ),
        PlanNode::Filter(n) => s matches StreamPlan::Filter { input, predicate, schema }
            && predicate.conjunctions@ == n.predicate.conjunctions@ && schema.fields@
            == n.base.schema.fields@ && stream_matches(*n.input, *input),
        PlanNode::Join(n) => s matches StreamPlan::HashJoin { left, right, on, schema }
            && on.conjunctions@ == n.on.conjunctions@ && schema.fields@
            == n.base.schema.fields@ && stream_matches(*n.left, *left) && stream_matches(
            *n.right,
            *right,
        ),
        PlanNode::MultiJoin(_) => false,
        PlanNode::Agg(n) => s matches StreamPlan::HashAgg { input, group_keys, agg_calls, schema }
            && group_keys@ == n.group_keys@ && agg_calls@ == n.agg_calls@ && schema.fields@
            == n.base.schema.fields@ && stream_matches(*n.input, *input),
    }
}

/// The code a streaming conversion reports for a tree with no incremental
/// interpretation: the code of the leftmost offending node — a generating
/// series is rejected as unsupported for streaming, a multi-join as an
/// acknowledged gap. Meaningful only where the tree is not convertible.
pub open spec fn stream_reject_code(p: PlanNode) -> ErrorCode
    decreases p,
{
    match p {
        PlanNode::Scan(_) => ErrorCode::InternalError,
        PlanNode::GenerateSeries(_) => ErrorCode::StreamUnsupported,
        PlanNode::Project(n) => stream_reject_code(*n.input),
        PlanNode::Filter(n) => stream_reject_code(*n.input),
        PlanNode::Join(n) => if !stream_convertible(*n.left) {
            stream_reject_code(*n.left)
        } else {
            stream_reject_code(*n.right)
        },
        PlanNode::MultiJoin(_) => ErrorCode::NotImplemented,
        PlanNode::Agg(n) => stream_reject_code(*n.input),
    }
}

/// Convert a logical tree into its one-shot batch counterpart: node for
/// node the matching physical kind, carrying the logical node's payload and
/// declared schema. A shape with no batch counterpart is a plan-time error.
pub fn to_batch(plan: &PlanRef) -> (r: Result<BatchPlan, ErrorCode>)
    ensures
        r is Ok <==> batch_convertible(**plan),
        match r {
            Ok(b) => {
                &&& b.spec_schema().fields@ == (**plan).spec_base().schema.fields@
                &&& batch_matches(**plan, b)
            },
            Err(e) => e == ErrorCode::NotImplemented,
        },
    decreases **plan,
{
    match &**plan {
        PlanNode::Scan(n) => Ok(BatchPlan::Scan {
            table_id: n.table_id,
            output_cols: crate::plan_node::clone_usizes(&n.output_cols),
            schema: n.base.schema.clone(),
        }),
        PlanNode::GenerateSeries(n) => Ok(BatchPlan::GenerateSeries {
            start: n.start,
            stop: n.stop,
            step: n.step,
            schema: n.base.schema.clone(),
        }),
        PlanNode::Project(n) => {
            let input = to_batch(&n.input)?;
            Ok(BatchPlan::Project {
                input: Box::new(input),
                cols: crate::plan_node::clone_usizes(&n.cols),
                schema: n.base.schema.clone(),
            })
        },
        PlanNode::Filter(n) => {
            let input = to_batch(&n.input)?;
            Ok(BatchPlan::Filter {
                input: Box::new(input),
                predicate: n.predicate.clone(),
                schema: n.base.schema.clone(),
            })
        },
        PlanNode::Join(n) => {
            let left = to_batch(&n.left)?;
            let right = to_batch(&n.right)?;
            Ok(BatchPlan::NestedLoopJoin {
                left: Box::new(left),
                right: Box::new(right),
                on: n.on.clone(),
                schema: n.base.schema.clone(),
            })
        },
        PlanNode::MultiJoin(_) => Err(ErrorCode::NotImplemented),
        PlanNode::Agg(n) => {
            let input = to_batch(&n.input)?;
            Ok(BatchPlan::HashAgg {
                input: Box::new(input),
                group_keys: crate::plan_node::clone_usizes(&n.group_keys),
                agg_calls: crate::plan_node::clone_agg_calls(&n.agg_calls),
                schema: n.base.schema.clone(),
            })
        },
    }
}

/// The logical rewrite that precedes streaming conversion: it certifies the
/// tree is stream-safe and reports the column remapping the rewrite caused.
/// The shapes this core streams convert in place, so the remapping is the
/// identity; a shape with no incremental interpretation is rejected here as
/// a hard plan-time failure, with the code of the leftmost offending node —
/// a generating series is unsupported for streaming, a multi-join an
/// acknowledged gap.
pub fn logical_rewrite_for_stream(plan: &PlanRef) -> (r: Result<
    (PlanRef, ColIndexMapping),
    ErrorCode,
>)
    ensures
        r is Ok <==> stream_convertible(**plan),
        match r {
            Ok((p, m)) => p == *plan && m.offset == 0,
            Err(e) => e == stream_reject_code(**plan),
        },
    decreases **plan,
{
    match &**plan {
        PlanNode::Scan(_) => Ok((rc_clone(plan), ColIndexMapping::with_shift_offset(0))),
        PlanNode::GenerateSeries(_) => Err(ErrorCode::StreamUnsupported),
        PlanNode::Project(n) => {
            let _ = logical_rewrite_for_stream(&n.input)?;
            Ok((rc_clone(plan), ColIndexMapping::with_shift_offset(0)))
        },
        PlanNode::Filter(n) => {
            let _ = logical_rewrite_for_stream(&n.input)?;
            Ok((rc_clone(plan), ColIndexMapping::with_shift_offset(0)))
        },
        PlanNode::Join(n) => {
            let _ = logical_rewrite_for_stream(&n.left)?;
            let _ = logical_rewrite_for_stream(&n.right)?;
            Ok((rc_clone(plan), ColIndexMapping::with_shift_offset(0)))
        },
        PlanNode::MultiJoin(_) => Err(ErrorCode::NotImplemented),
        PlanNode::Agg(n) => {
            let _ = logical_rewrite_for_stream(&n.input)?;
            Ok((rc_clone(plan), ColIndexMapping::with_shift_offset(0)))
        },
    }
}

/// Convert a logical tree into its incremental counterpart: node for node
/// the matching stream operator, carrying the logical node's payload and
/// declared schema. The stream-safety rewrite runs first; its rejection —
/// the code of the leftmost offending node — is this conversion's
/// rejection.
pub fn to_stream(plan: &PlanRef) -> (r: Result<StreamPlan, ErrorCode>)
    ensures
        r is Ok <==> stream_convertible(**plan),
        match r {
            Ok(s) => {
                &&& s.spec_schema().fields@ == (**plan).spec_base().schema.fields@
                &&& stream_matches(**plan, s)
            },
            Err(e) => e == stream_reject_code(**plan),
        },
    decreases **plan,
{
    let _rewrite = logical_rewrite_for_stream(plan)?;
    match &**plan {
        PlanNode::Scan(n) => Ok(StreamPlan::TableScan {
            table_id: n.table_id,
            output_cols: crate::plan_node::clone_usizes(&n.output_cols),
            schema: n.base.schema.clone(),
        }),
        PlanNode::GenerateSeries(_) => Err(ErrorCode::StreamUnsupported),
        PlanNode::Project(n) => {
            let input = to_stream(&n.input)?;
            Ok(StreamPlan::Project {
                input: Box::new(input),
                cols: crate::plan_node::clone_usizes(&n.cols),
                schema: n.base.schema.clone(),
            })
        },
        PlanNode::Filter(n) => {
            let input = to_stream(&n.input)?;
            Ok(StreamPlan::Filter {
                input: Box::new(input),
                predicate: n.predicate.clone(),
                schema: n.base.schema.clone(),
            })
        },
        PlanNode::Join(n) => {
            let left = to_stream(&n.left)?;
            let right = to_stream(&n.right)?;
            Ok(StreamPlan::HashJoin {
                left: Box::new(left),
                right: Box::new(right),
                on: n.on.clone(),
                schema: n.base.schema.clone(),
            })
        },
        PlanNode::MultiJoin(_) => Err(ErrorCode::NotImplemented),
        PlanNode::Agg(n) => {
            let input = to_stream(&n.input)?;
            Ok(StreamPlan::HashAgg {
                input: Box::new(input),
                group_keys: crate::plan_node::clone_usizes(&n.group_keys),
                agg_calls: crate::plan_node::clone_agg_calls(&n.agg_calls),
                schema: n.base.schema.clone(),
            })
        },
    }
}

} // verus!
