//! The logical plan tree.
//!
//! A plan is a tree of operator nodes: every node carries a `PlanBase` with
//! its output schema and a shared compilation-context handle, and exclusively
//! owns its children. Rewrite passes never mutate a node in place; they build
//! a replacement tree. The set of node kinds is closed, so each capability
//! (tree traversal, pruning, realization) is one exhaustive match rather than
//! open-ended dispatch.

use vstd::prelude::*;
use std::rc::Rc;
use crate::agg::AggCall;
use crate::catalog::{Field, Schema};
use crate::error::ErrorCode;
use crate::expr::Condition;

verus! {

/// Relies on the standard library's `Rc::clone`: cloning a
/// reference-counted handle yields a handle to the very same value.
#[verifier::external_body]
pub fn rc_clone<T>(b: &Rc<T>) -> (res: Rc<T>)
    ensures
        res == *b,
{
    Rc::clone(b)
}

/// The query-compilation context. Many nodes of one plan share a single
/// context through a reference-counted handle; no node owns it exclusively.
pub struct OptimizerContext {
    /// Identifies the compilation session the plan belongs to.
    pub session_id: u64,
}

/// The shared, reference-counted handle to the compilation context.
pub type OptimizerContextRef = Rc<OptimizerContext>;

/// The distribution requirement derived for a node; used only by later
/// optimization stages.
#[derive(Clone, Copy, Debug, PartialEq, Eq, Structural)]
pub enum Distribution {
    Any,
    Single,
}

/// The sort order derived for a node; used only by later optimization
/// stages.
#[derive(Clone, Copy, Debug, PartialEq, Eq, Structural)]
pub enum Order {
    Any,
}

/// What every plan node carries: its output schema, the shared context
/// handle, and derived physical properties. The schema is immutable after
/// construction: a node that changes its output columns is replaced, never
/// mutated.
pub struct PlanBase {
    pub ctx: OptimizerContextRef,
    pub schema: Schema,
    pub dist: Distribution,
    pub order: Order,
}

impl PlanBase {
    /// The base of a freshly built logical node: the given schema, the given
    /// shared context, and unconstrained physical properties.
    pub fn new_logical(ctx: OptimizerContextRef, schema: Schema) -> (r: PlanBase)
        ensures
            r.ctx == ctx,
            r.schema == schema,
            r.dist == Distribution::Any,
            r.order == Order::Any,
    {
        PlanBase { ctx, schema, dist: Distribution::Any, order: Order::Any }
    }
}

impl Clone for PlanBase {
    fn clone(&self) -> (r: PlanBase)
        ensures
            r.ctx == self.ctx,
            r.schema.fields@ == self.schema.fields@,
            r.dist == self.dist,
            r.order == self.order,
    {
        PlanBase {
            ctx: rc_clone(&self.ctx),
            schema: self.schema.clone(),
            dist: self.dist,
            order: self.order,
        }
    }
}

/// How a binary join combines its sides. Only inner joins commute, so only
/// they take part in multi-join flattening.
#[derive(Clone, Copy, Debug, PartialEq, Eq, Structural)]
pub enum JoinType {
    Inner,
    LeftOuter,
}

/// A shared reference to a plan node: the tree's edge type.
pub type PlanRef = Rc<PlanNode>;

/// A scan of a stored relation: an opaque leaf from the core's point of
/// view. It produces the listed columns of the table, in the listed order.
pub struct LogicalScan {
    pub base: PlanBase,
    pub table_id: usize,
    pub output_cols: Vec<usize>,
}

/// A generating table function producing one timestamp column that walks
/// from `start` (inclusive) to `stop` (exclusive) in steps of `step`.
/// Temporal values are carried as plain integers.
pub struct LogicalGenerateSeries {
    pub base: PlanBase,
    pub start: i64,
    pub stop: i64,
    pub step: i64,
}

/// A projection to a list of input columns, in the listed order.
pub struct LogicalProject {
    pub base: PlanBase,
    pub input: PlanRef,
    pub cols: Vec<usize>,
}

/// A filter keeping the input rows its condition holds of.
pub struct LogicalFilter {
    pub base: PlanBase,
    pub input: PlanRef,
    pub predicate: Condition,
}

/// A binary join of two subtrees under a condition over their concatenated
/// columns.
pub struct LogicalJoin {
    pub base: PlanBase,
    pub left: PlanRef,
    pub right: PlanRef,
    pub join_type: JoinType,
    pub on: Condition,
}

/// `LogicalMultiJoin` combines two or more relations according to some
/// condition.
///
/// Each output row has fields from each of the inputs; the set of output
/// rows is a subset of the cartesian product of all the inputs. The node is
/// only built from inner joins, as it implicitly assumes commutativity:
/// non-inner joins stay expressed as binary `LogicalJoin`s.
pub struct LogicalMultiJoin {
    pub base: PlanBase,
    pub inputs: Vec<PlanRef>,
    pub on: Condition,
}

/// A grouped aggregation: one output row per distinct value of the grouping
/// columns, holding the grouping columns first and one aggregate result per
/// call after them.
pub struct LogicalAgg {
    pub base: PlanBase,
    pub input: PlanRef,
    pub group_keys: Vec<usize>,
    pub agg_calls: Vec<AggCall>,
}

/// A logical plan node: one of the closed set of operator kinds.
pub enum PlanNode {
    Scan(LogicalScan),
    GenerateSeries(LogicalGenerateSeries),
    Project(LogicalProject),
    Filter(LogicalFilter),
    Join(LogicalJoin),
    MultiJoin(LogicalMultiJoin),
    Agg(LogicalAgg),
}

impl LogicalJoin {
    /// Get a reference to the join's left input.
    pub fn left(&self) -> (r: &PlanRef)
        ensures
            *r == self.left,
    {
        &self.left
    }

    /// Get a reference to the join's right input.
    pub fn right(&self) -> (r: &PlanRef)
        ensures
            *r == self.right,
    {
        &self.right
    }

    /// The join's kind.
    pub fn join_type(&self) -> (r: JoinType)
        ensures
            r == self.join_type,
    {
        self.join_type
    }

    /// Get a reference to the join's condition.
    pub fn on(&self) -> (r: &Condition)
        ensures
            *r == self.on,
    {
        &self.on
    }

}

impl PlanNode {
    /// The node's base, as seen by specifications.
    pub open spec fn spec_base(self) -> PlanBase {
        match self {
            PlanNode::Scan(n) => n.base,
            PlanNode::GenerateSeries(n) => n.base,
            PlanNode::Project(n) => n.base,
            PlanNode::Filter(n) => n.base,
            PlanNode::Join(n) => n.base,
            PlanNode::MultiJoin(n) => n.base,
            PlanNode::Agg(n) => n.base,
        }
    }

    /// The number of columns the node produces.
    pub open spec fn width(self) -> int {
        self.spec_base().schema.fields@.len() as int
    }

    /// The node's base: its schema, context handle and derived properties.
    pub fn base(&self) -> (r: &PlanBase)
        ensures
            *r == self.spec_base(),
    {
        match self {
            PlanNode::Scan(n) => &n.base,
            PlanNode::GenerateSeries(n) => &n.base,
            PlanNode::Project(n) => &n.base,
            PlanNode::Filter(n) => &n.base,
            PlanNode::Join(n) => &n.base,
            PlanNode::MultiJoin(n) => &n.base,
            PlanNode::Agg(n) => &n.base,
        }
    }

    /// The node's output schema.
    pub fn schema(&self) -> (r: &Schema)
        ensures
            *r == self.spec_base().schema,
    {
        &self.base().schema
    }

    /// The join node behind this node, if it is one.
    pub fn as_logical_join(&self) -> (r: Option<&LogicalJoin>)
        ensures
            match r {
                Some(j) => *self == PlanNode::Join(*j),
                None => !(self is Join),
            },
    {
        match self {
            PlanNode::Join(j) => Some(j),
            _ => None,
        }
    }

    /// The multi-join node behind this node, if it is one.
    pub fn as_logical_multi_join(&self) -> (r: Option<&LogicalMultiJoin>)
        ensures
            match r {
                Some(m) => *self == PlanNode::MultiJoin(*m),
                None => !(self is MultiJoin),
            },
    {
        match self {
            PlanNode::MultiJoin(m) => Some(m),
            _ => None,
        }
    }

    /// The scan node behind this node, if it is one.
    pub fn as_logical_scan(&self) -> (r: Option<&LogicalScan>)
        ensures
            match r {
                Some(s) => *self == PlanNode::Scan(*s),
                None => !(self is Scan),
            },
    {
        match self {
            PlanNode::Scan(s) => Some(s),
            _ => None,
        }
    }

    /// The node's children, in order, as seen by specifications.
    pub open spec fn spec_children(self) -> Seq<PlanRef> {
        match self {
            PlanNode::Scan(_) => Seq::empty(),
            PlanNode::GenerateSeries(_) => Seq::empty(),
            PlanNode::Project(n) => seq![n.input],
            PlanNode::Filter(n) => seq![n.input],
            PlanNode::Join(n) => seq![n.left, n.right],
            PlanNode::MultiJoin(n) => n.inputs@,
            PlanNode::Agg(n) => seq![n.input],
        }
    }

    /// Well-formedness of the whole subtree: every node's schema is
    /// consistent with its children's widths, and every condition references
    /// only columns that exist.
    pub open spec fn wf(self) -> bool
        decreases self,
    {
        match self {
            PlanNode::Scan(n) => n.base.schema.fields@.len() == n.output_cols@.len(),
            PlanNode::GenerateSeries(n) => n.base.schema.fields@.len() == 1,
            PlanNode::Project(n) => {
                &&& n.base.schema.fields@.len() == n.cols@.len()
                &&& forall|i: int| 0 <= i < n.cols@.len() ==> #[trigger] n.cols@[i]
                    < (*n.input).width()
                &&& (*n.input).wf()
            },
            PlanNode::Filter(n) => {
                &&& n.base.schema.fields@.len() == (*n.input).width()
                &&& n.predicate.wf((*n.input).width())
                &&& (*n.input).wf()
            },
            PlanNode::Join(n) => {
                &&& n.base.schema.fields@.len() == (*n.left).width() + (*n.right).width()
                &&& n.base.schema.fields@.len() <= usize::MAX
                &&& n.on.wf((*n.left).width() + (*n.right).width())
                &&& (*n.left).wf()
                &&& (*n.right).wf()
            },
            PlanNode::MultiJoin(n) => {
                &&& n.base.schema.fields@.len() == sum_widths(n.inputs@)
                &&& n.base.schema.fields@.len() <= usize::MAX
                &&& n.on.wf(sum_widths(n.inputs@))
                &&& all_wf(n.inputs@)
            },
            PlanNode::Agg(n) => {
                &&& n.base.schema.fields@.len() == n.group_keys@.len() + n.agg_calls@.len()
                &&& forall|i: int| 0 <= i < n.group_keys@.len() ==> #[trigger] n.group_keys@[i]
                    < (*n.input).width()
                &&& forall|i: int| 0 <= i < n.agg_calls@.len() ==> #[trigger] n.agg_calls@[i].arg
                    < (*n.input).width()
                &&& (*n.input).wf()
            },
        }
    }
}

/// A children list, held in the compact small-vector form that keeps up to
/// two children inline. The collection itself is opaque to the verifier;
/// what it holds is named by `plan_inputs_items` and spoken for by the
/// trusted operations below.
#[verifier::external_body]
pub struct PlanInputs {
    inner: smallvec::SmallVec<[PlanRef; 2]>,
}

/// What a children list holds, in order.
pub uninterp spec fn plan_inputs_items(v: PlanInputs) -> Seq<PlanRef>;

/// Relies on `smallvec::SmallVec::new`: a freshly created vector is empty.
#[verifier::external_body]
fn plan_inputs_new() -> (r: PlanInputs)
    ensures
        plan_inputs_items(r) == Seq::<PlanRef>::empty(),
{
    PlanInputs { inner: smallvec::SmallVec::new() }
}

/// Relies on `smallvec::SmallVec::push`: appends one element at the end.
#[verifier::external_body]
fn plan_inputs_push(v: &mut PlanInputs, x: PlanRef)
    ensures
        plan_inputs_items(*final(v)) == plan_inputs_items(*old(v)).push(x),
{
    v.inner.push(x)
}

/// Relies on `smallvec::SmallVec::len`: the number of elements held.
#[verifier::external_body]
pub fn plan_inputs_len(v: &PlanInputs) -> (r: usize)
    ensures
        r == plan_inputs_items(*v).len(),
{
    v.inner.len()
}

/// Relies on `smallvec`'s `Index` implementation: hands out the element at
/// the given position.
#[verifier::external_body]
pub fn plan_inputs_get(v: &PlanInputs, i: usize) -> (r: &PlanRef)
    requires
        i < plan_inputs_items(*v).len(),
    ensures
        *r == plan_inputs_items(*v)[i as int],
{
    &v.inner[i]
}

/// Whether `b` is the same operator as `a`: the same node kind carrying the
/// same node-specific payload — condition, predicate, column list, table
/// identifier, join type, series bounds, grouping keys, aggregate calls.
/// Children and base are not compared.
pub open spec fn same_operator(a: PlanNode, b: PlanNode) -> bool {
    match a {
        PlanNode::Scan(n) => b matches PlanNode::Scan(m) && m.table_id == n.table_id
            && m.output_cols@ == n.output_cols@,
        PlanNode::GenerateSeries(n) => b matches PlanNode::GenerateSeries(m) && m.start == n.start
            && m.stop == n.stop && m.step == n.step,
        PlanNode::Project(n) => b matches PlanNode::Project(m) && m.cols@ == n.cols@,
        PlanNode::Filter(n) => b matches PlanNode::Filter(m) && m.predicate.conjunctions@
            == n.predicate.conjunctions@,
        PlanNode::Join(n) => b matches PlanNode::Join(m) && m.join_type == n.join_type
            && m.on.conjunctions@ == n.on.conjunctions@,
        PlanNode::MultiJoin(n) => b matches PlanNode::MultiJoin(m) && m.on.conjunctions@
            == n.on.conjunctions@,
        PlanNode::Agg(n) => b matches PlanNode::Agg(m) && m.group_keys@ == n.group_keys@
            && m.agg_calls@ == n.agg_calls@,
    }
}

impl PlanNode {
    /// The node's children as an ordered list. Every rewrite pass recurses
    /// through this one uniform view of the tree.
    pub fn inputs(&self) -> (r: PlanInputs)
        ensures
            plan_inputs_items(r) == self.spec_children(),
    {
        let mut vec = plan_inputs_new();
        match self {
            PlanNode::Scan(_) => {},
            PlanNode::GenerateSeries(_) => {},
            PlanNode::Project(n) => {
                plan_inputs_push(&mut vec, rc_clone(&n.input));
            },
            PlanNode::Filter(n) => {
                plan_inputs_push(&mut vec, rc_clone(&n.input));
            },
            PlanNode::Join(n) => {
                plan_inputs_push(&mut vec, rc_clone(&n.left));
                plan_inputs_push(&mut vec, rc_clone(&n.right));
            },
            PlanNode::MultiJoin(n) => {
                let len = n.inputs.len();
                let mut i: usize = 0;
                while i < len
                    invariant
                        len == n.inputs@.len(),
                        i <= len,
                        plan_inputs_items(vec) =~= n.inputs@.subrange(0, i as int),
                    decreases len - i,
                {
                    plan_inputs_push(&mut vec, rc_clone(&n.inputs[i]));
                    i += 1;
                }
                proof {
                    assert(plan_inputs_items(vec) =~= n.inputs@);
                }
            },
            PlanNode::Agg(n) => {
                plan_inputs_push(&mut vec, rc_clone(&n.input));
            },
        }
        proof {
            assert(plan_inputs_items(vec) =~= self.spec_children());
        }
        vec
    }

    /// Rebuild this node over a replacement list of children of the same
    /// arity; a list of any other length is a structural error. The node's
    /// kind and payload, and its base — its schema and derived properties
    /// among it — are kept as they stand: replacement children are expected
    /// to produce the widths the originals did.
    pub fn clone_with_inputs(&self, inputs: &[PlanRef]) -> (r: Result<PlanRef, ErrorCode>)
        ensures
            r is Ok <==> inputs@.len() == self.spec_children().len(),
            match r {
                Ok(p) => {
                    &&& (*p).spec_base().ctx == self.spec_base().ctx
                    &&& (*p).spec_base().schema.fields@ == self.spec_base().schema.fields@
                    &&& (*p).spec_base().dist == self.spec_base().dist
                    &&& (*p).spec_base().order == self.spec_base().order
                    &&& same_operator(*self, *p)
                    &&& (*p).spec_children() == inputs@
                },
                Err(e) => e == (ErrorCode::ArityMismatch {
                    expected: self.spec_children().len() as usize,
                    actual: inputs@.len() as usize,
                }),
            },
    {
        match self {
            PlanNode::Scan(n) => {
                if inputs.len() != 0 {
                    return Err(ErrorCode::ArityMismatch { expected: 0, actual: inputs.len() });
                }
                Ok(Rc::new(PlanNode::Scan(LogicalScan {
                    base: n.base.clone(),
                    table_id: n.table_id,
                    output_cols: clone_usizes(&n.output_cols),
                })))
            },
            PlanNode::GenerateSeries(n) => {
                if inputs.len() != 0 {
                    return Err(ErrorCode::ArityMismatch { expected: 0, actual: inputs.len() });
                }
                Ok(Rc::new(PlanNode::GenerateSeries(LogicalGenerateSeries {
                    base: n.base.clone(),
                    start: n.start,
                    stop: n.stop,
                    step: n.step,
                })))
            },
            PlanNode::Project(n) => {
                if inputs.len() != 1 {
                    return Err(ErrorCode::ArityMismatch { expected: 1, actual: inputs.len() });
                }
                let r = Rc::new(PlanNode::Project(LogicalProject {
                    base: n.base.clone(),
                    input: rc_clone(&inputs[0]),
                    cols: clone_usizes(&n.cols),
                }));
                proof {
                    assert((*r).spec_children() =~= inputs@);
                }
                Ok(r)
            },
            PlanNode::Filter(n) => {
                if inputs.len() != 1 {
                    return Err(ErrorCode::ArityMismatch { expected: 1, actual: inputs.len() });
                }
                let r = Rc::new(PlanNode::Filter(LogicalFilter {
                    base: n.base.clone(),
                    input: rc_clone(&inputs[0]),
                    predicate: n.predicate.clone(),
                }));
                proof {
                    assert((*r).spec_children() =~= inputs@);
                }
                Ok(r)
            },
            PlanNode::Join(n) => {
                if inputs.len() != 2 {
                    return Err(ErrorCode::ArityMismatch { expected: 2, actual: inputs.len() });
                }
                let r = Rc::new(PlanNode::Join(LogicalJoin {
                    base: n.base.clone(),
                    left: rc_clone(&inputs[0]),
                    right: rc_clone(&inputs[1]),
                    join_type: n.join_type,
                    on: n.on.clone(),
                }));
                proof {
                    assert((*r).spec_children() =~= inputs@);
                }
                Ok(r)
            },
            PlanNode::MultiJoin(n) => {
                if inputs.len() != n.inputs.len() {
                    return Err(ErrorCode::ArityMismatch {
                        expected: n.inputs.len(),
                        actual: inputs.len(),
                    });
                }
                let len = inputs.len();
                let mut new_inputs: Vec<PlanRef> = Vec::new();
                let mut i: usize = 0;
                while i < len
                    invariant
                        len == inputs@.len(),
                        i <= len,
                        new_inputs@ =~= inputs@.subrange(0, i as int),
                    decreases len - i,
                {
                    new_inputs.push(rc_clone(&inputs[i]));
                    i += 1;
                }
                proof {
                    assert(new_inputs@ =~= inputs@);
                }
                let r = Rc::new(PlanNode::MultiJoin(LogicalMultiJoin {
                    base: n.base.clone(),
                    inputs: new_inputs,
                    on: n.on.clone(),
                }));
                Ok(r)
            },
            PlanNode::Agg(n) => {
                if inputs.len() != 1 {
                    return Err(ErrorCode::ArityMismatch { expected: 1, actual: inputs.len() });
                }
                let r = Rc::new(PlanNode::Agg(LogicalAgg {
                    base: n.base.clone(),
                    input: rc_clone(&inputs[0]),
                    group_keys: clone_usizes(&n.group_keys),
                    agg_calls: clone_agg_calls(&n.agg_calls),
                }));
                proof {
                    assert((*r).spec_children() =~= inputs@);
                }
                Ok(r)
            },
        }
    }
}

/// Copy a list of column indices.
pub fn clone_usizes(v: &Vec<usize>) -> (r: Vec<usize>)
    ensures
        r@ == v@,
{
    let n = v.len();
    let mut out: Vec<usize> = Vec::new();
    let mut i: usize = 0;
    while i < n
        invariant
            n == v@.len(),
            i <= n,
            out@ =~= v@.subrange(0, i as int),
        decreases n - i,
    {
        out.push(v[i]);
        i += 1;
    }
    proof {
        assert(out@ =~= v@);
    }
    out
}

/// Copy a list of aggregate calls.
pub fn clone_agg_calls(v: &Vec<AggCall>) -> (r: Vec<AggCall>)
    ensures
        r@ == v@,
{
    let n = v.len();
    let mut out: Vec<AggCall> = Vec::new();
    let mut i: usize = 0;
    while i < n
        invariant
            n == v@.len(),
            i <= n,
            out@ =~= v@.subrange(0, i as int),
        decreases n - i,
    {
        out.push(v[i]);
        i += 1;
    }
    proof {
        assert(out@ =~= v@);
    }
    out
}

/// The width of the plan a reference points at.
pub open spec fn ref_width(p: PlanRef) -> int {
    (*p).width()
}

/// The combined width of a list of join operands.
pub open spec fn sum_widths(inputs: Seq<PlanRef>) -> int
    decreases inputs,
{
    if inputs.len() == 0 {
        0
    } else {
        sum_widths(inputs.drop_last()) + (*inputs.last()).width()
    }
}

/// Every plan of the list is well formed.
pub open spec fn all_wf(inputs: Seq<PlanRef>) -> bool
    decreases inputs,
{
    if inputs.len() == 0 {
        true
    } else {
        all_wf(inputs.drop_last()) && (*inputs.last()).wf()
    }
}

/// The combined width of two lists laid end to end is the sum of their
/// combined widths.
pub proof fn lemma_sum_widths_concat(a: Seq<PlanRef>, b: Seq<PlanRef>)
    ensures
        sum_widths(a + b) == sum_widths(a) + sum_widths(b),
    decreases b,
{
    if b.len() == 0 {
        assert(a + b =~= a);
    } else {
        lemma_sum_widths_concat(a, b.drop_last());
        assert((a + b).drop_last() =~= a + b.drop_last());
        assert((a + b).last() == b.last());
    }
}

/// Well-formedness of a concatenation is well-formedness of both parts.
pub proof fn lemma_all_wf_concat(a: Seq<PlanRef>, b: Seq<PlanRef>)
    ensures
        all_wf(a + b) == (all_wf(a) && all_wf(b)),
    decreases b,
{
    if b.len() == 0 {
        assert(a + b =~= a);
    } else {
        lemma_all_wf_concat(a, b.drop_last());
        assert((a + b).drop_last() =~= a + b.drop_last());
        assert((a + b).last() == b.last());
    }
}

} // verus!
