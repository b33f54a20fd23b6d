//! Column pruning.
//!
//! Given the set of column indices a parent actually needs, the pass
//! replaces a node by one whose output schema is the smallest superset of
//! those columns it can produce. It is a best-effort optimization, never a
//! correctness requirement: a leaf that cannot reduce its column set keeps
//! itself unchanged. The required set is carried as a fixed-size bit set.

use vstd::prelude::*;
use std::rc::Rc;
use crate::catalog::Field;
use crate::error::ErrorCode;
use crate::plan_node::{rc_clone, LogicalScan, PlanNode, PlanRef};
use crate::semantics::{plan_rows, row_select, select_rows, Database};

verus! {

#[verifier::external_type_specification]
#[verifier::external_body]
pub struct ExFixedBitSet(fixedbitset::FixedBitSet);

/// The set of bit positions a required-columns bit set holds.
pub uninterp spec fn bitset_bits(s: fixedbitset::FixedBitSet) -> Set<int>;

/// The number of bits a required-columns bit set was created with.
pub uninterp spec fn bitset_len(s: fixedbitset::FixedBitSet) -> int;

/// Relies on `fixedbitset::FixedBitSet::with_capacity`: the given number of
/// bits, all initially clear.
#[verifier::external_body]
pub fn bitset_with_capacity(bits: usize) -> (r: fixedbitset::FixedBitSet)
    ensures
        bitset_len(r) == bits,
        bitset_bits(r) == Set::<int>::empty(),
{
    fixedbitset::FixedBitSet::with_capacity(bits)
}

/// Relies on `fixedbitset::FixedBitSet::contains`: whether the bit is
/// enabled; bits outside the capacity are always disabled.
#[verifier::external_body]
pub fn bitset_contains(s: &fixedbitset::FixedBitSet, bit: usize) -> (r: bool)
    ensures
        r == bitset_bits(*s).contains(bit as int),
{
    s.contains(bit)
}

/// Relies on `fixedbitset::FixedBitSet::insert`: enables the bit; a bit at
/// or past the capacity panics, so it is kept out.
#[verifier::external_body]
pub fn bitset_insert(s: &mut fixedbitset::FixedBitSet, bit: usize)
    requires
        bit < bitset_len(*old(s)),
    ensures
        bitset_bits(*final(s)) == bitset_bits(*old(s)).insert(bit as int),
        bitset_len(*final(s)) == bitset_len(*old(s)),
{
    s.insert(bit)
}

/// The column positions below `width` that the required set holds, in
/// ascending order.
pub open spec fn kept_cols(width: nat, bits: Set<int>) -> Seq<usize>
    decreases width,
{
    if width == 0 {
        Seq::empty()
    } else {
        kept_cols((width - 1) as nat, bits) + if bits.contains(width - 1) {
            seq![(width - 1) as usize]
        } else {
            Seq::empty()
        }
    }
}

/// Prune a plan to the columns the parent requires.
///
/// A scan produces exactly the required subset of its columns, in their
/// original order; for every database its pruned rows are its original rows
/// restricted to the kept columns. A generating series is a leaf that
/// cannot reduce its fixed one-column tuple: it keeps itself unchanged.
/// Pruning through the remaining shapes is an acknowledged gap that fails
/// loudly instead of silently keeping a wrong shape.
pub fn prune_col(plan: &PlanRef, required_cols: &fixedbitset::FixedBitSet) -> (r: Result<
    PlanRef,
    ErrorCode,
>)
    requires
        (**plan).wf(),
    ensures
        match r {
            Ok(p) => match **plan {
                PlanNode::Scan(n) => {
                    let kept = kept_cols(
                        n.base.schema.fields@.len() as nat,
                        bitset_bits(*required_cols),
                    );
                    &&& (*p) matches PlanNode::Scan(n2)
                    &&& n2.table_id == n.table_id
                    &&& n2.base.ctx == n.base.ctx
                    &&& n2.base.schema.fields@ == row_select_fields(n.base.schema.fields@, kept)
                    &&& n2.output_cols@ == kept.map_values(
                        |c: usize| n.output_cols@[c as int],
                    )
                    &&& (*p).wf()
                    &&& forall|db: Database|
                        #[trigger] plan_rows(*p, db) == select_rows(plan_rows(**plan, db), kept)
                },
                PlanNode::GenerateSeries(_) => p == *plan,
                _ => false,
            },
            Err(e) => {
                &&& e == ErrorCode::NotImplemented
                &&& !((**plan) is Scan) && !((**plan) is GenerateSeries)
            },
        },
        r is Ok <==> ((**plan) is Scan || (**plan) is GenerateSeries),
{
    match &**plan {
        PlanNode::Scan(n) => {
            let width = n.base.schema.fields.len();
            let ghost bits = bitset_bits(*required_cols);
            let ghost kept = kept_cols(width as nat, bits);
            let mut fields: Vec<Field> = Vec::new();
            let mut output_cols: Vec<usize> = Vec::new();
            let mut i: usize = 0;
            while i < width
                invariant
                    width == n.base.schema.fields@.len(),
                    width == n.output_cols@.len(),
                    i <= width,
                    bits == bitset_bits(*required_cols),
                    fields@ =~= row_select_fields(
                        n.base.schema.fields@,
                        kept_cols(i as nat, bits),
                    ),
                    output_cols@ =~= kept_cols(i as nat, bits).map_values(
                        |c: usize| n.output_cols@[c as int],
                    ),
                    forall|k: int| 0 <= k < kept_cols(i as nat, bits).len()
                        ==> #[trigger] kept_cols(i as nat, bits)[k] < i,
                decreases width - i,
            {
                if bitset_contains(required_cols, i) {
                    fields.push(n.base.schema.fields[i].clone());
                    output_cols.push(n.output_cols[i]);
                }
                i += 1;
                proof {
                    let prev = kept_cols((i - 1) as nat, bits);
                    let cur = kept_cols(i as nat, bits);
                    if bits.contains(i - 1) {
                        assert(cur =~= prev.push((i - 1) as usize));
                    } else {
                        assert(cur =~= prev);
                    }
                    assert(fields@ =~= row_select_fields(n.base.schema.fields@, cur));
                    assert(output_cols@ =~= cur.map_values(
                        |c: usize| n.output_cols@[c as int],
                    ));
                }
            }
            let pruned = LogicalScan {
                base: crate::plan_node::PlanBase {
                    ctx: rc_clone(&n.base.ctx),
                    schema: crate::catalog::Schema { fields },
                    dist: n.base.dist,
                    order: n.base.order,
                },
                table_id: n.table_id,
                output_cols,
            };
            proof {
                lemma_prune_scan_rows(n, &pruned, kept);
            }
            let result = Rc::new(PlanNode::Scan(pruned));
            Ok(result)
        },
        PlanNode::GenerateSeries(_) => Ok(rc_clone(plan)),
        _ => Err(ErrorCode::NotImplemented),
    }
}

/// The fields of a schema restricted to the listed positions, in that
/// order.
pub open spec fn row_select_fields(fields: Seq<Field>, cols: Seq<usize>) -> Seq<Field> {
    cols.map_values(|c: usize| fields[c as int])
}

/// Pruning soundness for the scan: over every database, the pruned scan's
/// rows are exactly the original scan's rows restricted to the kept
/// columns.
proof fn lemma_prune_scan_rows(orig: &LogicalScan, pruned: &LogicalScan, kept: Seq<usize>)
    requires
        pruned.table_id == orig.table_id,
        pruned.base.schema.fields@.len() == kept.len(),
        pruned.output_cols@ == kept.map_values(|c: usize| orig.output_cols@[c as int]),
        forall|k: int| 0 <= k < kept.len() ==> #[trigger] kept[k] < orig.output_cols@.len(),
    ensures
        PlanNode::Scan(*pruned).wf(),
        forall|db: Database| #[trigger] plan_rows(PlanNode::Scan(*pruned), db) == select_rows(
            plan_rows(PlanNode::Scan(*orig), db),
            kept,
        ),
{
    assert forall|db: Database| #[trigger] plan_rows(PlanNode::Scan(*pruned), db) == select_rows(
        plan_rows(PlanNode::Scan(*orig), db),
        kept,
    ) by {
        let table = crate::semantics::table_rows(db, orig.table_id as int);
        let lhs = plan_rows(PlanNode::Scan(*pruned), db);
        let rhs = select_rows(plan_rows(PlanNode::Scan(*orig), db), kept);
        assert(lhs.len() == rhs.len());
        assert forall|i: int| 0 <= i < lhs.len() implies lhs[i] == rhs[i] by {
            assert(lhs[i] == row_select(table[i], pruned.output_cols@));
            assert(rhs[i] == row_select(row_select(table[i], orig.output_cols@), kept));
            assert forall|k: int| 0 <= k < kept.len() implies row_select(
                table[i],
                pruned.output_cols@,
            )[k] == row_select(row_select(table[i], orig.output_cols@), kept)[k] by {
                assert(pruned.output_cols@[k] == orig.output_cols@[kept[k] as int]);
            }
            assert(row_select(table[i], pruned.output_cols@) =~= row_select(
                row_select(table[i], orig.output_cols@),
                kept,
            ));
        }
        assert(lhs =~= rhs);
    }
}

} // verus!
