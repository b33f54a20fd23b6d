//! Multi-join flattening.
//!
//! A chain of binary inner joins is collapsed into one n-ary
//! `LogicalMultiJoin` holding the flat list of join operands and one flat
//! conjunction of predicates. The n-ary shape exposes the whole join graph
//! to a later join-ordering stage instead of the binary join's artificial
//! left-deep bias. Non-inner joins never take part: they stay as nested
//! binary joins and stop the splice on their branch.

use vstd::prelude::*;
use crate::expr::{
    conj_shift, ColIndexMapping, Condition, Predicate, lemma_conj_shift_compose,
    lemma_conj_shift_split, lemma_conj_shift_zero, lemma_shift_wf,
};
use crate::plan_node::{
    all_wf, rc_clone, ref_width, sum_widths, JoinType, LogicalMultiJoin, PlanBase, PlanNode,
    PlanRef, lemma_all_wf_concat, lemma_sum_widths_concat,
};

verus! {

/// The operand list one side of a join contributes to the flattened node:
/// the side's own operands if it is already a multi-join, the spliced
/// operands of both its sides if it is itself a binary inner join, the side
/// itself otherwise.
pub open spec fn flatten_side_inputs(side: PlanRef) -> Seq<PlanRef>
    decreases *side,
{
    match *side {
        PlanNode::MultiJoin(m) => m.inputs@,
        PlanNode::Join(j) => if j.join_type == JoinType::Inner {
            flatten_side_inputs(j.left) + flatten_side_inputs(j.right)
        } else {
            seq![side]
        },
        _ => seq![side],
    }
}

/// The conjuncts one side of a join contributes, in the side's own column
/// numbering: its condition if it is a multi-join; its own predicate
/// followed by what its sides contribute — the right side's moved up by the
/// left side's width — if it is itself a binary inner join; nothing
/// otherwise.
pub open spec fn side_conjuncts(side: PlanRef) -> Seq<Predicate>
    decreases *side,
{
    match *side {
        PlanNode::MultiJoin(m) => m.on.conjunctions@,
        PlanNode::Join(j) => if j.join_type == JoinType::Inner {
            j.on.conjunctions@ + side_conjuncts(j.left) + conj_shift(
                side_conjuncts(j.right),
                (*j.left).width(),
            )
        } else {
            Seq::empty()
        },
        _ => Seq::empty(),
    }
}

/// A well-formed side contributes operands of its own combined width, all
/// well formed, and conjuncts whose references lie inside that width.
pub proof fn lemma_flatten_side(side: PlanRef)
    requires
        (*side).wf(),
    ensures
        sum_widths(flatten_side_inputs(side)) == (*side).width(),
        all_wf(flatten_side_inputs(side)),
        crate::expr::conj_wf(side_conjuncts(side), (*side).width()),
    decreases *side,
{
    match *side {
        PlanNode::MultiJoin(m) => {
            assert(m.base.schema.fields@.len() == sum_widths(m.inputs@));
            assert((*side).width() == m.base.schema.fields@.len());
            assert(flatten_side_inputs(side) == m.inputs@);
            assert(m.on.wf(sum_widths(m.inputs@)));
        },
        PlanNode::Join(j) => {
            if j.join_type == JoinType::Inner {
                lemma_flatten_side(j.left);
                lemma_flatten_side(j.right);
                let lw = ref_width(j.left);
                let rw = ref_width(j.right);
                lemma_sum_widths_concat(
                    flatten_side_inputs(j.left),
                    flatten_side_inputs(j.right),
                );
                lemma_all_wf_concat(flatten_side_inputs(j.left), flatten_side_inputs(j.right));
                let jc = j.on.conjunctions@;
                let cl = side_conjuncts(j.left);
                let cr = side_conjuncts(j.right);
                let total = side_conjuncts(side);
                assert(total == jc + cl + conj_shift(cr, lw));
                assert(j.on.wf(lw + rw));
                assert forall|k: int| 0 <= k < total.len() implies #[trigger] total[k].wf(
                    lw + rw,
                ) by {
                    if k < jc.len() {
                        assert(total[k] == jc[k]);
                    } else if k < jc.len() + cl.len() {
                        assert(total[k] == cl[k - jc.len()]);
                        assert(cl[k - jc.len()].wf(lw));
                    } else {
                        let i = k - jc.len() - cl.len();
                        assert(total[k] == conj_shift(cr, lw)[i]);
                        assert(conj_shift(cr, lw)[i] == cr[i].spec_shift(lw));
                        assert(cr[i].wf(rw));
                        lemma_shift_wf(cr[i], lw, rw);
                    }
                }
            } else {
                lemma_flatten_opaque(side);
            }
        },
        _ => {
            lemma_flatten_opaque(side);
        },
    }
}

/// A side kept as one opaque operand contributes itself and nothing else.
proof fn lemma_flatten_opaque(side: PlanRef)
    requires
        flatten_side_inputs(side) == seq![side],
    ensures
        sum_widths(flatten_side_inputs(side)) == (*side).width(),
        (*side).wf() ==> all_wf(flatten_side_inputs(side)),
{
    assert(seq![side].drop_last() =~= Seq::<PlanRef>::empty());
    assert(seq![side].last() == side);
    assert(sum_widths(Seq::<PlanRef>::empty()) == 0);
    assert(all_wf(Seq::<PlanRef>::empty()));
}

/// Append every conjunct of `src` to `dst`.
fn push_conjuncts(dst: &mut Vec<Predicate>, src: &Condition)
    ensures
        final(dst)@ == old(dst)@ + src.conjunctions@,
{
    let n = src.conjunctions.len();
    let mut i: usize = 0;
    proof {
        assert(dst@ =~= old(dst)@ + src.conjunctions@.subrange(0, 0));
    }
    while i < n
        invariant
            n == src.conjunctions@.len(),
            i <= n,
            dst@ =~= old(dst)@ + src.conjunctions@.subrange(0, i as int),
        decreases n - i,
    {
        dst.push(src.conjunctions[i]);
        i += 1;
    }
    proof {
        assert(src.conjunctions@.subrange(0, n as int) =~= src.conjunctions@);
    }
}

/// Append a handle to every plan of `src` to `dst`.
fn push_plans(dst: &mut Vec<PlanRef>, src: &Vec<PlanRef>)
    ensures
        final(dst)@ == old(dst)@ + src@,
{
    let n = src.len();
    let mut i: usize = 0;
    proof {
        assert(dst@ =~= old(dst)@ + src@.subrange(0, 0));
    }
    while i < n
        invariant
            n == src@.len(),
            i <= n,
            dst@ =~= old(dst)@ + src@.subrange(0, i as int),
        decreases n - i,
    {
        dst.push(rc_clone(&src[i]));
        i += 1;
    }
    proof {
        assert(src@.subrange(0, n as int) =~= src@);
    }
}

/// Splice one side of a join into the growing operand list and flat
/// condition. `shift` is the combined width of everything left of this side
/// in the flattened numbering; every conjunct the side carries is moved up
/// by it, so that each still names the same logical column.
fn flatten_into(
    side: &PlanRef,
    shift: usize,
    inputs: &mut Vec<PlanRef>,
    conjunctions: &mut Vec<Predicate>,
)
    requires
        (**side).wf(),
        shift + (**side).width() <= usize::MAX,
    ensures
        final(inputs)@ == old(inputs)@ + flatten_side_inputs(*side),
        final(conjunctions)@ == old(conjunctions)@ + conj_shift(
            side_conjuncts(*side),
            shift as int,
        ),
    decreases **side,
{
    match &**side {
        PlanNode::MultiJoin(m) => {
            push_plans(inputs, &m.inputs);
            let w = m.base.schema.fields.len();
            proof {
                assert(m.on.wf(sum_widths(m.inputs@)));
                assert(w as int == sum_widths(m.inputs@));
            }
            let mapping = ColIndexMapping::with_shift_offset(shift);
            let shifted = m.on.rewrite_expr(&mapping, w);
            proof {
                assert(shifted.conjunctions@ =~= conj_shift(m.on.conjunctions@, shift as int));
            }
            push_conjuncts(conjunctions, &shifted);
        },
        PlanNode::Join(j) => {
            if j.join_type() == JoinType::Inner {
                let lw = j.left.schema().len();
                let w = side.schema().len();
                proof {
                    assert(lw as int == (*j.left).width());
                    assert(w as int == (*j.left).width() + (*j.right).width());
                    assert(j.on.wf(w as int));
                }
                let mapping = ColIndexMapping::with_shift_offset(shift);
                let shifted = j.on.rewrite_expr(&mapping, w);
                proof {
                    assert(shifted.conjunctions@ =~= conj_shift(j.on.conjunctions@, shift as int));
                }
                push_conjuncts(conjunctions, &shifted);
                let ghost mid_inputs = inputs@;
                let ghost mid_conjuncts = conjunctions@;
                flatten_into(&j.left, shift, inputs, conjunctions);
                flatten_into(&j.right, shift + lw, inputs, conjunctions);
                proof {
                    let lwi = ref_width(j.left);
                    let rwi = ref_width(j.right);
                    let cl = side_conjuncts(j.left);
                    let cr = side_conjuncts(j.right);
                    lemma_flatten_side(j.left);
                    lemma_flatten_side(j.right);
                    assert(flatten_side_inputs(*side) == flatten_side_inputs(j.left)
                        + flatten_side_inputs(j.right));
                    assert(inputs@ =~= old(inputs)@ + flatten_side_inputs(*side));
                    // The side's conjuncts, shifted as a whole, are the
                    // pieces the three appends produced.
                    lemma_conj_shift_split(j.on.conjunctions@ + cl, conj_shift(cr, lwi), shift as int);
                    lemma_conj_shift_split(j.on.conjunctions@, cl, shift as int);
                    lemma_conj_shift_compose(cr, lwi, shift as int, rwi);
                    assert(conj_shift(cr, lwi + shift as int) =~= conj_shift(
                        cr,
                        (shift + lw) as int,
                    ));
                    assert(side_conjuncts(*side) == (j.on.conjunctions@ + cl) + conj_shift(
                        cr,
                        lwi,
                    ));
                    assert(conjunctions@ =~= old(conjunctions)@ + conj_shift(
                        side_conjuncts(*side),
                        shift as int,
                    ));
                }
            } else {
                inputs.push(rc_clone(side));
                proof {
                    assert(inputs@ =~= old(inputs)@ + seq![*side]);
                    assert(conj_shift(Seq::<Predicate>::empty(), shift as int)
                        =~= Seq::<Predicate>::empty());
                    assert(conjunctions@ =~= old(conjunctions)@ + conj_shift(
                        side_conjuncts(*side),
                        shift as int,
                    ));
                }
            }
        },
        _ => {
            inputs.push(rc_clone(side));
            proof {
                assert(inputs@ =~= old(inputs)@ + seq![*side]);
                assert(conj_shift(Seq::<Predicate>::empty(), shift as int)
                    =~= Seq::<Predicate>::empty());
                assert(conjunctions@ =~= old(conjunctions)@ + conj_shift(
                    side_conjuncts(*side),
                    shift as int,
                ));
            }
        },
    }
}

impl LogicalMultiJoin {
    /// Assemble a multi-join node from its parts, unchecked.
    pub fn new(base: PlanBase, inputs: Vec<PlanRef>, on: Condition) -> (r: Self)
        ensures
            r.base == base,
            r.inputs == inputs,
            r.on == on,
    {
        Self { base, inputs, on }
    }

    /// Get a reference to the multi-join's condition.
    pub fn on(&self) -> (r: &Condition)
        ensures
            *r == self.on,
    {
        &self.on
    }

    /// Clone with a new condition over the same inputs: the base — schema,
    /// context and derived properties — and the operand list are kept.
    pub fn clone_with_cond(&self, cond: Condition) -> (r: Self)
        ensures
            r.base.ctx == self.base.ctx,
            r.base.schema.fields@ == self.base.schema.fields@,
            r.base.dist == self.base.dist,
            r.base.order == self.base.order,
            r.inputs@ == self.inputs@,
            r.on == cond,
    {
        Self::new(self.base.clone(), clone_plan_list(&self.inputs), cond)
    }

    /// The number of join operands.
    pub fn input_count(&self) -> (r: usize)
        ensures
            r == self.inputs@.len(),
    {
        self.inputs.len()
    }

    /// Get a reference to one join operand.
    pub fn input_at(&self, i: usize) -> (r: &PlanRef)
        requires
            i < self.inputs@.len(),
        ensures
            *r == self.inputs@[i as int],
    {
        &self.inputs[i]
    }

    /// Flatten one binary join into a multi-join.
    ///
    /// Only an inner join is flattened; any other node, and any non-inner
    /// join, yields `None`. Each side that is already a multi-join, or is
    /// itself a binary inner join, is spliced — recursively, so the result
    /// covers as much of the join chain as is structurally possible: its
    /// operands replace it in the operand list and its conjuncts merge into
    /// the flat condition, each carried conjunct's column references moved
    /// up by the combined width of everything to its left so that each still
    /// names the same logical column in the combined numbering. Any other
    /// side stays as one opaque operand. A join of two opaque sides still
    /// yields a valid two-input multi-join.
    pub fn from_join(join: &PlanRef) -> (r: Option<LogicalMultiJoin>)
        requires
            (**join).wf(),
        ensures
            r is Some <==> ((**join) matches PlanNode::Join(j) && j.join_type == JoinType::Inner),
            match r {
                Some(mj) => match **join {
                    PlanNode::Join(j) => {
                        &&& mj.base.ctx == j.base.ctx
                        &&& mj.base.schema.fields@ == j.base.schema.fields@
                        &&& mj.base.dist == j.base.dist
                        &&& mj.base.order == j.base.order
                        &&& mj.inputs@ == flatten_side_inputs(j.left) + flatten_side_inputs(
                            j.right,
                        )
                        &&& mj.on.conjunctions@ == j.on.conjunctions@ + side_conjuncts(j.left)
                            + conj_shift(side_conjuncts(j.right), (*j.left).width())
                        &&& PlanNode::MultiJoin(mj).wf()
                    },
                    _ => false,
                },
                None => true,
            },
    {
        let node: &PlanNode = &**join;
        let logical_join = match node.as_logical_join() {
            Some(j) => j,
            None => {
                return None;
            },
        };
        if logical_join.join_type() != JoinType::Inner {
            return None;
        }
        let left: &PlanRef = logical_join.left();
        let right: &PlanRef = logical_join.right();

        let left_col_num = left.schema().len();
        proof {
            assert(**join == PlanNode::Join(*logical_join));
            assert((*logical_join.left).wf());
            assert((*logical_join.right).wf());
            assert(left_col_num as int == (*logical_join.left).width());
            assert(logical_join.base.schema.fields@.len() == (*logical_join.left).width() + (
            *logical_join.right).width());
        }

        let mut inputs: Vec<PlanRef> = Vec::new();
        let mut conjunctions: Vec<Predicate> = logical_join.on().clone().conjunctions;

        flatten_into(left, 0, &mut inputs, &mut conjunctions);
        flatten_into(right, left_col_num, &mut inputs, &mut conjunctions);

        proof {
            lemma_conj_shift_zero(side_conjuncts(logical_join.left));
            assert(inputs@ =~= flatten_side_inputs(logical_join.left) + flatten_side_inputs(
                logical_join.right,
            ));
            assert(conjunctions@ =~= logical_join.on.conjunctions@ + side_conjuncts(
                logical_join.left,
            ) + conj_shift(side_conjuncts(logical_join.right), (*logical_join.left).width()));
        }

        let result = LogicalMultiJoin {
            base: logical_join.base.clone(),
            inputs,
            on: Condition { conjunctions },
        };

        proof {
            // The flattened join, viewed as a side itself, contributes
            // exactly the operands and conjuncts the node was given; its
            // well-formedness facts carry over.
            lemma_flatten_side(*join);
            assert(flatten_side_inputs(*join) == flatten_side_inputs(logical_join.left)
                + flatten_side_inputs(logical_join.right));
            assert(side_conjuncts(*join) == logical_join.on.conjunctions@ + side_conjuncts(
                logical_join.left,
            ) + conj_shift(side_conjuncts(logical_join.right), (*logical_join.left).width()));
            assert(result.base.schema.fields@.len() == sum_widths(result.inputs@));
            assert(result.on.wf(sum_widths(result.inputs@)));
            assert(all_wf(result.inputs@));
            assert(PlanNode::MultiJoin(result).wf());
        }

        Some(result)
    }
}

/// Clone a list of plan references; the clones are handles to the same
/// nodes.
pub fn clone_plan_list(v: &Vec<PlanRef>) -> (r: Vec<PlanRef>)
    ensures
        r@ == v@,
{
    let n = v.len();
    let mut out: Vec<PlanRef> = Vec::new();
    let mut i: usize = 0;
    while i < n
        invariant
            n == v@.len(),
            i <= n,
            out@ =~= v@.subrange(0, i as int),
        decreases n - i,
    {
        out.push(rc_clone(&v[i]));
        i += 1;
    }
    proof {
        assert(out@ =~= v@);
    }
    out
}

} // verus!
