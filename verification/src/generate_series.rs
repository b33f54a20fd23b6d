//! The generating table function node.

use vstd::prelude::*;
use std::rc::Rc;
use crate::catalog::Schema;
use crate::plan_node::{
    LogicalGenerateSeries, OptimizerContextRef, PlanBase, PlanNode, PlanRef,
};

verus! {

impl LogicalGenerateSeries {
    /// Build a generating-series node. Used internally by the optimizer.
    pub fn new(
        start: i64,
        stop: i64,
        step: i64,
        schema: Schema,
        ctx: OptimizerContextRef,
    ) -> (r: Self)
        requires
            schema.fields@.len() == 1,
        ensures
            r.start == start,
            r.stop == stop,
            r.step == step,
            r.base.schema == schema,
            r.base.ctx == ctx,
            PlanNode::GenerateSeries(r).wf(),
    {
        let base = PlanBase::new_logical(ctx, schema);
        Self { base, start, stop, step }
    }

    /// Build a generating-series node as a plan reference. Used by the
    /// planner; the binder has already validated the bounds.
    pub fn create(
        start: i64,
        stop: i64,
        step: i64,
        schema: Schema,
        ctx: OptimizerContextRef,
    ) -> (r: PlanRef)
        requires
            schema.fields@.len() == 1,
        ensures
            (*r) matches PlanNode::GenerateSeries(g) && g.start == start && g.stop == stop
                && g.step == step && g.base.schema == schema && g.base.ctx == ctx,
            (*r).wf(),
    {
        Rc::new(PlanNode::GenerateSeries(Self::new(start, stop, step, schema, ctx)))
    }
}

} // verus!
