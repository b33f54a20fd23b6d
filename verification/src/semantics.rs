//! Row-set semantics of logical plans, and the equivalence laws of the
//! rewrite passes.
//!
//! A plan's meaning is the sequence of rows it produces over a stored
//! database: scans read their table, filters keep the rows their condition
//! holds of, joins filter the cartesian product of their operands. The laws
//! at the end relate the multi-join flattening rewrite to this semantics:
//! the flattened node produces exactly the rows of the nested binary joins
//! it replaces.

use vstd::prelude::*;
use crate::expr::{
    conj_holds, conj_shift, conj_wf, lemma_conj_concat, lemma_conj_concat_left,
    lemma_conj_shift_concat, Predicate,
};
use crate::multi_join::{flatten_side_inputs, lemma_flatten_side, side_conjuncts};
use crate::plan_node::{
    all_wf, sum_widths, JoinType, LogicalJoin, LogicalMultiJoin, PlanNode, PlanRef,
};

verus! {

/// A stored database: for each table identifier, the rows of that table.
pub type Database = Seq<Seq<Seq<i64>>>;

/// Every row of the set has exactly `w` cells.
pub open spec fn all_width(rows: Seq<Seq<i64>>, w: int) -> bool {
    forall|i: int| 0 <= i < rows.len() ==> #[trigger] rows[i].len() == w
}

/// The rows of the table named by `table_id`; a table the database does not
/// hold is empty.
pub open spec fn table_rows(db: Database, table_id: int) -> Seq<Seq<i64>> {
    if 0 <= table_id < db.len() {
        db[table_id]
    } else {
        Seq::empty()
    }
}

/// The cells of `row` listed by `cols`, in that order.
pub open spec fn row_select(row: Seq<i64>, cols: Seq<usize>) -> Seq<i64> {
    cols.map_values(|c: usize| row[c as int])
}

/// Each row restricted to the listed columns.
pub open spec fn select_rows(rows: Seq<Seq<i64>>, cols: Seq<usize>) -> Seq<Seq<i64>> {
    rows.map_values(|r: Seq<i64>| row_select(r, cols))
}

/// The rows the conjunction holds of, in their original order.
pub open spec fn filter_rows(ps: Seq<Predicate>, rows: Seq<Seq<i64>>) -> Seq<Seq<i64>> {
    rows.filter(|r: Seq<i64>| conj_holds(ps, r))
}

/// The row `x` laid before each row of `r`.
pub open spec fn prefix_all(x: Seq<i64>, r: Seq<Seq<i64>>) -> Seq<Seq<i64>> {
    r.map_values(|y: Seq<i64>| x + y)
}

/// The cartesian product: every row of `l` laid before every row of `r`,
/// enumerated row-major.
pub open spec fn cross_rows(l: Seq<Seq<i64>>, r: Seq<Seq<i64>>) -> Seq<Seq<i64>>
    decreases l.len(),
{
    if l.len() == 0 {
        Seq::empty()
    } else {
        cross_rows(l.drop_last(), r) + prefix_all(l.last(), r)
    }
}

/// The left-deep cartesian product of a list of row sets. The product of no
/// sets is the single empty row, the unit of row concatenation.
pub open spec fn cross_all(rels: Seq<Seq<Seq<i64>>>) -> Seq<Seq<i64>>
    decreases rels.len(),
{
    if rels.len() == 0 {
        seq![Seq::<i64>::empty()]
    } else {
        cross_rows(cross_all(rels.drop_last()), rels.last())
    }
}

/// How many steps a series from `start` (inclusive) to `stop` (exclusive)
/// of stride `step` takes; a non-positive stride yields none.
pub open spec fn series_len(start: int, stop: int, step: int) -> int {
    if step > 0 && start < stop {
        (stop - start - 1) / step + 1
    } else {
        0
    }
}

/// The one-column rows of a generating series.
pub open spec fn series_rows(start: i64, stop: i64, step: i64) -> Seq<Seq<i64>> {
    Seq::new(
        series_len(start as int, stop as int, step as int) as nat,
        |i: int| seq![(start + i * step) as i64],
    )
}

/// The rows each plan of the list produces, in order.
pub open spec fn input_rows(inputs: Seq<PlanRef>, db: Database) -> Seq<Seq<Seq<i64>>>
    decreases inputs,
{
    if inputs.len() == 0 {
        Seq::empty()
    } else {
        input_rows(inputs.drop_last(), db).push(plan_rows(*inputs.last(), db))
    }
}

/// The rows a logical plan produces over a stored database.
///
/// Two kinds are left unspecified: a non-inner join pads with absent values
/// the core's integer cells do not carry, and a grouped aggregation's
/// output is stated by the hash-aggregation executor's contract over its
/// input batches. Both are given the empty row set here; no law below
/// depends on either.
pub open spec fn plan_rows(p: PlanNode, db: Database) -> Seq<Seq<i64>>
    decreases p,
{
    match p {
        PlanNode::Scan(n) => select_rows(table_rows(db, n.table_id as int), n.output_cols@),
        PlanNode::GenerateSeries(n) => series_rows(n.start, n.stop, n.step),
        PlanNode::Project(n) => select_rows(plan_rows(*n.input, db), n.cols@),
        PlanNode::Filter(n) => filter_rows(n.predicate.conjunctions@, plan_rows(*n.input, db)),
        PlanNode::Join(n) => match n.join_type {
            JoinType::Inner => filter_rows(
                n.on.conjunctions@,
                cross_rows(plan_rows(*n.left, db), plan_rows(*n.right, db)),
            ),
            JoinType::LeftOuter => Seq::empty(),
        },
        PlanNode::MultiJoin(n) => filter_rows(
            n.on.conjunctions@,
            cross_all(input_rows(n.inputs@, db)),
        ),
        PlanNode::Agg(_) => Seq::empty(),
    }
}

/// Filtering on a constant verdict keeps everything or nothing.
pub proof fn lemma_filter_rows_const(ps: Seq<Predicate>, rows: Seq<Seq<i64>>, b: bool)
    requires
        forall|i: int| 0 <= i < rows.len() ==> conj_holds(ps, #[trigger] rows[i]) == b,
    ensures
        filter_rows(ps, rows) == if b {
            rows
        } else {
            Seq::<Seq<i64>>::empty()
        },
    decreases rows.len(),
{
    reveal(Seq::filter);
    if rows.len() == 0 {
        assert(rows =~= Seq::<Seq<i64>>::empty());
    } else {
        lemma_filter_rows_const(ps, rows.drop_last(), b);
        if b {
            assert(filter_rows(ps, rows) =~= rows);
        }
    }
}

/// An empty conjunction holds of every row: it filters nothing out.
pub proof fn lemma_filter_rows_empty(rows: Seq<Seq<i64>>)
    ensures
        filter_rows(Seq::<Predicate>::empty(), rows) == rows,
{
    lemma_filter_rows_const(Seq::<Predicate>::empty(), rows, true);
}

/// A filter distributes over laying two row sets end to end.
pub proof fn lemma_filter_rows_concat(ps: Seq<Predicate>, a: Seq<Seq<i64>>, b: Seq<Seq<i64>>)
    ensures
        filter_rows(ps, a + b) == filter_rows(ps, a) + filter_rows(ps, b),
    decreases b.len(),
{
    reveal(Seq::filter);
    if b.len() == 0 {
        assert(a + b =~= a);
        assert(filter_rows(ps, a) + filter_rows(ps, b) =~= filter_rows(ps, a));
    } else {
        lemma_filter_rows_concat(ps, a, b.drop_last());
        assert((a + b).drop_last() =~= a + b.drop_last());
        assert((a + b).last() == b.last());
        if conj_holds(ps, b.last()) {
            assert(filter_rows(ps, a) + filter_rows(ps, b) =~= (filter_rows(ps, a) + filter_rows(
                ps,
                b.drop_last(),
            )).push(b.last()));
        }
    }
}

/// Two conjunctions applied one after the other filter like their
/// concatenation.
pub proof fn lemma_filter_rows_fuse(a: Seq<Predicate>, b: Seq<Predicate>, rows: Seq<Seq<i64>>)
    ensures
        filter_rows(a + b, rows) == filter_rows(b, filter_rows(a, rows)),
    decreases rows.len(),
{
    reveal(Seq::filter);
    if rows.len() == 0 {
    } else {
        lemma_filter_rows_fuse(a, b, rows.drop_last());
        let x = rows.last();
        lemma_conj_concat(a, b, x);
        let fa = filter_rows(a, rows.drop_last());
        if conj_holds(a, x) {
            assert(filter_rows(a, rows) == fa.push(x));
            assert(fa.push(x).drop_last() =~= fa);
            assert(fa.push(x).last() == x);
        }
    }
}

/// Every row of a filtered set has the width of the rows it came from.
pub proof fn lemma_filter_rows_width(ps: Seq<Predicate>, rows: Seq<Seq<i64>>, w: int)
    requires
        all_width(rows, w),
    ensures
        all_width(filter_rows(ps, rows), w),
    decreases rows.len(),
{
    reveal(Seq::filter);
    if rows.len() == 0 {
    } else {
        assert(all_width(rows.drop_last(), w));
        lemma_filter_rows_width(ps, rows.drop_last(), w);
        let f = filter_rows(ps, rows.drop_last());
        if conj_holds(ps, rows.last()) {
            assert(rows.last().len() == w);
            assert forall|i: int| 0 <= i < f.push(rows.last()).len() implies #[trigger] f.push(
                rows.last(),
            )[i].len() == w by {}
        }
    }
}

/// The product of row sets of fixed widths has rows of the combined width.
pub proof fn lemma_cross_rows_width(l: Seq<Seq<i64>>, r: Seq<Seq<i64>>, wl: int, wr: int)
    requires
        all_width(l, wl),
        all_width(r, wr),
    ensures
        all_width(cross_rows(l, r), wl + wr),
    decreases l.len(),
{
    if l.len() == 0 {
    } else {
        assert(all_width(l.drop_last(), wl));
        lemma_cross_rows_width(l.drop_last(), r, wl, wr);
        assert(l.last().len() == wl);
        let pa = prefix_all(l.last(), r);
        assert forall|i: int| 0 <= i < pa.len() implies #[trigger] pa[i].len() == wl + wr by {
            assert(pa[i] == l.last() + r[i]);
        }
        let c = cross_rows(l.drop_last(), r) + pa;
        assert forall|i: int| 0 <= i < c.len() implies #[trigger] c[i].len() == wl + wr by {
            if i < cross_rows(l.drop_last(), r).len() {
                assert(c[i] == cross_rows(l.drop_last(), r)[i]);
            } else {
                assert(c[i] == pa[i - cross_rows(l.drop_last(), r).len()]);
            }
        }
    }
}

/// The product distributes over laying two left factors end to end.
pub proof fn lemma_cross_rows_concat_left(a: Seq<Seq<i64>>, b: Seq<Seq<i64>>, r: Seq<Seq<i64>>)
    ensures
        cross_rows(a + b, r) == cross_rows(a, r) + cross_rows(b, r),
    decreases b.len(),
{
    if b.len() == 0 {
        assert(a + b =~= a);
        assert(cross_rows(a, r) + cross_rows(b, r) =~= cross_rows(a, r));
    } else {
        lemma_cross_rows_concat_left(a, b.drop_last(), r);
        assert((a + b).drop_last() =~= a + b.drop_last());
        assert((a + b).last() == b.last());
        assert(cross_rows(a, r) + (cross_rows(b.drop_last(), r) + prefix_all(b.last(), r)) =~= (
        cross_rows(a, r) + cross_rows(b.drop_last(), r)) + prefix_all(b.last(), r));
    }
}

/// Prefixing by `x` then crossing with `c` is crossing first and prefixing
/// the products.
pub proof fn lemma_cross_prefix(x: Seq<i64>, b: Seq<Seq<i64>>, c: Seq<Seq<i64>>)
    ensures
        cross_rows(prefix_all(x, b), c) == prefix_all(x, cross_rows(b, c)),
    decreases b.len(),
{
    if b.len() == 0 {
        assert(prefix_all(x, b) =~= Seq::<Seq<i64>>::empty());
        assert(prefix_all(x, cross_rows(b, c)) =~= Seq::<Seq<i64>>::empty());
    } else {
        lemma_cross_prefix(x, b.drop_last(), c);
        let y = b.last();
        assert(prefix_all(x, b).drop_last() =~= prefix_all(x, b.drop_last()));
        assert(prefix_all(x, b).last() == x + y);
        // prefix_all(x, cross(b, c)) splits over the concatenation in the
        // definition of cross_rows, and x + (y + z) == (x + y) + z.
        assert(prefix_all(x, cross_rows(b.drop_last(), c) + prefix_all(y, c)) =~= prefix_all(
            x,
            cross_rows(b.drop_last(), c),
        ) + prefix_all(x, prefix_all(y, c)));
        assert forall|i: int| 0 <= i < prefix_all(y, c).len() implies #[trigger] prefix_all(
            x,
            prefix_all(y, c),
        )[i] == prefix_all(x + y, c)[i] by {
            assert(prefix_all(y, c)[i] == y + c[i]);
            assert(x + (y + c[i]) =~= (x + y) + c[i]);
        }
        assert(prefix_all(x, prefix_all(y, c)) =~= prefix_all(x + y, c));
    }
}

/// The cartesian product is associative.
pub proof fn lemma_cross_rows_assoc(a: Seq<Seq<i64>>, b: Seq<Seq<i64>>, c: Seq<Seq<i64>>)
    ensures
        cross_rows(cross_rows(a, b), c) == cross_rows(a, cross_rows(b, c)),
    decreases a.len(),
{
    if a.len() == 0 {
    } else {
        lemma_cross_rows_assoc(a.drop_last(), b, c);
        let x = a.last();
        lemma_cross_rows_concat_left(cross_rows(a.drop_last(), b), prefix_all(x, b), c);
        lemma_cross_prefix(x, b, c);
    }
}

/// A single empty row is the right unit of the product.
pub proof fn lemma_cross_rows_unit_right(l: Seq<Seq<i64>>)
    ensures
        cross_rows(l, seq![Seq::<i64>::empty()]) == l,
    decreases l.len(),
{
    if l.len() == 0 {
        assert(cross_rows(l, seq![Seq::<i64>::empty()]) =~= l);
    } else {
        lemma_cross_rows_unit_right(l.drop_last());
        assert(prefix_all(l.last(), seq![Seq::<i64>::empty()]) =~= seq![l.last()]);
        assert(l.last() + Seq::<i64>::empty() =~= l.last());
        assert(cross_rows(l.drop_last(), seq![Seq::<i64>::empty()]) + seq![l.last()] =~= l
            .drop_last().push(l.last()));
        assert(l.drop_last().push(l.last()) =~= l);
    }
}

/// A single empty row is the left unit of the product.
pub proof fn lemma_cross_rows_unit_left(r: Seq<Seq<i64>>)
    ensures
        cross_rows(seq![Seq::<i64>::empty()], r) == r,
{
    assert(seq![Seq::<i64>::empty()].drop_last() =~= Seq::<Seq<i64>>::empty());
    assert(seq![Seq::<i64>::empty()].last() == Seq::<i64>::empty());
    assert forall|i: int| 0 <= i < r.len() implies #[trigger] prefix_all(
        Seq::<i64>::empty(),
        r,
    )[i] == r[i] by {
        assert(prefix_all(Seq::<i64>::empty(), r)[i] == Seq::<i64>::empty() + r[i]);
        assert(Seq::<i64>::empty() + r[i] =~= r[i]);
    }
    assert(cross_rows(seq![Seq::<i64>::empty()], r) == cross_rows(
        Seq::<Seq<i64>>::empty(),
        r,
    ) + prefix_all(Seq::<i64>::empty(), r));
    assert(cross_rows(Seq::<Seq<i64>>::empty(), r) + prefix_all(Seq::<i64>::empty(), r) =~= prefix_all(
        Seq::<i64>::empty(),
        r,
    ));
    assert(prefix_all(Seq::<i64>::empty(), r) =~= r);
}

/// A condition over the left factor's columns filters the same rows before
/// or after the product is taken.
pub proof fn lemma_cross_filter_left(
    ps: Seq<Predicate>,
    l: Seq<Seq<i64>>,
    r: Seq<Seq<i64>>,
    wl: int,
)
    requires
        conj_wf(ps, wl),
        all_width(l, wl),
    ensures
        cross_rows(filter_rows(ps, l), r) == filter_rows(ps, cross_rows(l, r)),
    decreases l.len(),
{
    reveal(Seq::filter);
    if l.len() == 0 {
    } else {
        assert(all_width(l.drop_last(), wl));
        lemma_cross_filter_left(ps, l.drop_last(), r, wl);
        let x = l.last();
        assert(x.len() == wl);
        lemma_filter_rows_concat(ps, cross_rows(l.drop_last(), r), prefix_all(x, r));
        assert forall|i: int| 0 <= i < prefix_all(x, r).len() implies conj_holds(
            ps,
            #[trigger] prefix_all(x, r)[i],
        ) == conj_holds(ps, x) by {
            assert(prefix_all(x, r)[i] == x + r[i]);
            lemma_conj_concat_left(ps, x, r[i]);
        }
        lemma_filter_rows_const(ps, prefix_all(x, r), conj_holds(ps, x));
        if conj_holds(ps, x) {
            let f = filter_rows(ps, l.drop_last());
            assert(filter_rows(ps, l) == f.push(x));
            assert(f.push(x).drop_last() =~= f);
            assert(f.push(x).last() == x);
        } else {
            assert(filter_rows(ps, cross_rows(l, r)) =~= filter_rows(
                ps,
                cross_rows(l.drop_last(), r),
            ));
        }
    }
}

/// A condition over the right factor's columns, shifted up by the left
/// factor's width, filters the product like the original filters the right
/// factor.
pub proof fn lemma_cross_filter_right(
    ps: Seq<Predicate>,
    l: Seq<Seq<i64>>,
    r: Seq<Seq<i64>>,
    wl: int,
    wr: int,
)
    requires
        conj_wf(ps, wr),
        all_width(l, wl),
        all_width(r, wr),
        0 <= wl,
        wl + wr <= usize::MAX,
    ensures
        cross_rows(l, filter_rows(ps, r)) == filter_rows(conj_shift(ps, wl), cross_rows(l, r)),
    decreases l.len(),
{
    reveal(Seq::filter);
    if l.len() == 0 {
    } else {
        assert(all_width(l.drop_last(), wl));
        lemma_cross_filter_right(ps, l.drop_last(), r, wl, wr);
        let x = l.last();
        assert(x.len() == wl);
        lemma_filter_rows_concat(conj_shift(ps, wl), cross_rows(l.drop_last(), r), prefix_all(
            x,
            r,
        ));
        lemma_prefix_filter(ps, x, r, wr);
    }
}

/// Prefixing a filtered set is filtering the prefixed set by the shifted
/// condition.
pub proof fn lemma_prefix_filter(ps: Seq<Predicate>, x: Seq<i64>, r: Seq<Seq<i64>>, wr: int)
    requires
        conj_wf(ps, wr),
        all_width(r, wr),
        x.len() + wr <= usize::MAX,
    ensures
        prefix_all(x, filter_rows(ps, r)) == filter_rows(
            conj_shift(ps, x.len() as int),
            prefix_all(x, r),
        ),
    decreases r.len(),
{
    reveal(Seq::filter);
    if r.len() == 0 {
        assert(prefix_all(x, filter_rows(ps, r)) =~= Seq::<Seq<i64>>::empty());
        assert(prefix_all(x, r) =~= Seq::<Seq<i64>>::empty());
    } else {
        assert(all_width(r.drop_last(), wr));
        lemma_prefix_filter(ps, x, r.drop_last(), wr);
        let y = r.last();
        assert(y.len() == wr);
        lemma_conj_shift_concat(ps, x, y);
        assert(prefix_all(x, r).drop_last() =~= prefix_all(x, r.drop_last()));
        assert(prefix_all(x, r).last() == x + y);
        if conj_holds(ps, y) {
            let f = filter_rows(ps, r.drop_last());
            assert(filter_rows(ps, r) == f.push(y));
            assert(prefix_all(x, f.push(y)) =~= prefix_all(x, f).push(x + y));
        }
    }
}

/// Conjunctions that agree on every row of a set filter it identically.
pub proof fn lemma_filter_rows_congruence(a: Seq<Predicate>, b: Seq<Predicate>, rows: Seq<Seq<i64>>)
    requires
        forall|i: int| 0 <= i < rows.len() ==> conj_holds(a, #[trigger] rows[i]) == conj_holds(
            b,
            rows[i],
        ),
    ensures
        filter_rows(a, rows) == filter_rows(b, rows),
    decreases rows.len(),
{
    reveal(Seq::filter);
    if rows.len() == 0 {
    } else {
        lemma_filter_rows_congruence(a, b, rows.drop_last());
    }
}

/// The row lists of two operand lists laid end to end.
pub proof fn lemma_input_rows_concat(a: Seq<PlanRef>, b: Seq<PlanRef>, db: Database)
    ensures
        input_rows(a + b, db) == input_rows(a, db) + input_rows(b, db),
    decreases b,
{
    if b.len() == 0 {
        assert(a + b =~= a);
        assert(input_rows(a, db) + input_rows(b, db) =~= input_rows(a, db));
    } else {
        lemma_input_rows_concat(a, b.drop_last(), db);
        assert((a + b).drop_last() =~= a + b.drop_last());
        assert((a + b).last() == b.last());
        assert(input_rows(a, db) + input_rows(b.drop_last(), db).push(
            plan_rows(*b.last(), db),
        ) =~= (input_rows(a, db) + input_rows(b.drop_last(), db)).push(plan_rows(*b.last(), db)));
    }
}

/// The left-deep product of two lists laid end to end is the product of
/// their products.
pub proof fn lemma_cross_all_concat(ra: Seq<Seq<Seq<i64>>>, rb: Seq<Seq<Seq<i64>>>)
    ensures
        cross_all(ra + rb) == cross_rows(cross_all(ra), cross_all(rb)),
    decreases rb.len(),
{
    if rb.len() == 0 {
        assert(ra + rb =~= ra);
        lemma_cross_rows_unit_right(cross_all(ra));
    } else {
        lemma_cross_all_concat(ra, rb.drop_last());
        assert((ra + rb).drop_last() =~= ra + rb.drop_last());
        assert((ra + rb).last() == rb.last());
        lemma_cross_rows_assoc(cross_all(ra), cross_all(rb.drop_last()), rb.last());
    }
}

/// The rows a plan reached through a reference produces.
pub open spec fn rows_of(p: &PlanRef, db: Database) -> Seq<Seq<i64>> {
    plan_rows(**p, db)
}

/// The width of a plan reached through a reference.
pub open spec fn width_of(p: &PlanRef) -> int {
    (**p).width()
}

/// Every row a well-formed plan produces has the plan's schema width.
pub proof fn lemma_plan_rows_width(p: &PlanRef, db: Database)
    requires
        (**p).wf(),
    ensures
        all_width(plan_rows(**p, db), (**p).width()),
    decreases **p,
{
    match &**p {
        PlanNode::Scan(n) => {
            let rows = rows_of(p, db);
            assert forall|i: int| 0 <= i < rows.len() implies #[trigger] rows[i].len() == (
            **p).width() by {
                assert(rows[i] == row_select(
                    table_rows(db, n.table_id as int)[i],
                    n.output_cols@,
                ));
            }
        },
        PlanNode::GenerateSeries(n) => {
            let rows = rows_of(p, db);
            assert forall|i: int| 0 <= i < rows.len() implies #[trigger] rows[i].len() == (
            **p).width() by {
                assert(rows[i] == seq![(n.start + i * n.step) as i64]);
            }
        },
        PlanNode::Project(n) => {
            let rows = rows_of(p, db);
            assert forall|i: int| 0 <= i < rows.len() implies #[trigger] rows[i].len() == (
            **p).width() by {
                assert(rows[i] == row_select(plan_rows(*n.input, db)[i], n.cols@));
            }
        },
        PlanNode::Filter(n) => {
            lemma_plan_rows_width(&n.input, db);
            lemma_filter_rows_width(
                n.predicate.conjunctions@,
                rows_of(&n.input, db),
                width_of(&n.input),
            );
        },
        PlanNode::Join(n) => {
            match n.join_type {
                JoinType::Inner => {
                    lemma_plan_rows_width(&n.left, db);
                    lemma_plan_rows_width(&n.right, db);
                    lemma_cross_rows_width(
                        rows_of(&n.left, db),
                        rows_of(&n.right, db),
                        width_of(&n.left),
                        width_of(&n.right),
                    );
                    lemma_filter_rows_width(
                        n.on.conjunctions@,
                        cross_rows(rows_of(&n.left, db), rows_of(&n.right, db)),
                        width_of(&n.left) + width_of(&n.right),
                    );
                },
                JoinType::LeftOuter => {},
            }
        },
        PlanNode::MultiJoin(n) => {
            lemma_multi_width(n.inputs@, db);
            lemma_filter_rows_width(
                n.on.conjunctions@,
                cross_all(input_rows(n.inputs@, db)),
                sum_widths(n.inputs@),
            );
        },
        PlanNode::Agg(_) => {},
    }
}

/// Every row of the product of an operand list's row sets has the
/// operands' combined width.
pub proof fn lemma_multi_width(inputs: Seq<PlanRef>, db: Database)
    requires
        all_wf(inputs),
    ensures
        all_width(cross_all(input_rows(inputs, db)), sum_widths(inputs)),
    decreases inputs,
{
    if inputs.len() == 0 {
        assert(input_rows(inputs, db) =~= Seq::<Seq<Seq<i64>>>::empty());
        let unit = cross_all(Seq::<Seq<Seq<i64>>>::empty());
        assert(unit == seq![Seq::<i64>::empty()]);
        assert forall|i: int| 0 <= i < unit.len() implies #[trigger] unit[i].len() == 0 by {
            assert(unit[i] == Seq::<i64>::empty());
        }
    } else {
        lemma_multi_width(inputs.drop_last(), db);
        let x = inputs.last();
        lemma_plan_rows_width(&x, db);
        let ir = input_rows(inputs, db);
        assert(ir.drop_last() =~= input_rows(inputs.drop_last(), db));
        assert(ir.last() == rows_of(&x, db));
        lemma_cross_rows_width(
            cross_all(input_rows(inputs.drop_last(), db)),
            rows_of(&x, db),
            sum_widths(inputs.drop_last()),
            width_of(&x),
        );
    }
}

/// One side of a join, as the flattening sees it: its rows are its operand
/// list's product under its contributed conjuncts. A side that is itself a
/// binary inner join is spliced recursively, so the claim follows the chain
/// down by induction.
pub proof fn lemma_side_rows(side: &PlanRef, db: Database)
    requires
        (**side).wf(),
    ensures
        plan_rows(**side, db) == filter_rows(
            side_conjuncts(*side),
            cross_all(input_rows(flatten_side_inputs(*side), db)),
        ),
    decreases **side,
{
    match &**side {
        PlanNode::MultiJoin(m) => {},
        PlanNode::Join(j) => {
            if j.join_type == JoinType::Inner {
                lemma_side_rows(&j.left, db);
                lemma_side_rows(&j.right, db);
                lemma_join_splice(j.on.conjunctions@, j.left, j.right, db);
                assert(flatten_side_inputs(*side) == flatten_side_inputs(j.left)
                    + flatten_side_inputs(j.right));
                assert(side_conjuncts(*side) == j.on.conjunctions@ + side_conjuncts(j.left)
                    + conj_shift(side_conjuncts(j.right), (*j.left).width()));
            } else {
                lemma_side_rows_opaque(side, db);
            }
        },
        _ => {
            lemma_side_rows_opaque(side, db);
        },
    }
}

/// A side kept as one opaque operand: the one-element product under the
/// empty conjunction is the side's own rows.
proof fn lemma_side_rows_opaque(side: &PlanRef, db: Database)
    requires
        flatten_side_inputs(*side) == seq![*side],
        side_conjuncts(*side) == Seq::<Predicate>::empty(),
    ensures
        plan_rows(**side, db) == filter_rows(
            side_conjuncts(*side),
            cross_all(input_rows(flatten_side_inputs(*side), db)),
        ),
{
    let rows = rows_of(side, db);
    assert(seq![*side].drop_last() =~= Seq::<PlanRef>::empty());
    assert(seq![*side].last() == *side);
    assert(input_rows(seq![*side], db) == input_rows(seq![*side].drop_last(), db).push(
        plan_rows(*seq![*side].last(), db),
    ));
    assert(input_rows(Seq::<PlanRef>::empty(), db) =~= Seq::<Seq<Seq<i64>>>::empty());
    assert(plan_rows(*seq![*side].last(), db) == rows);
    assert(input_rows(seq![*side], db) =~= Seq::<Seq<Seq<i64>>>::empty().push(rows));
    let ir = input_rows(seq![*side], db);
    assert(ir.drop_last() =~= Seq::<Seq<Seq<i64>>>::empty());
    assert(ir.last() == rows);
    assert(cross_all(ir) == cross_rows(cross_all(Seq::<Seq<Seq<i64>>>::empty()), rows));
    lemma_cross_rows_unit_left(rows);
    lemma_filter_rows_empty(rows);
}

/// Splicing one binary inner join: filtering the product of its sides' rows
/// by its predicate equals one filter of the merged conjunction over the
/// product of the concatenated operand lists, provided each side's rows are
/// already its own operands' product under its own conjuncts.
proof fn lemma_join_splice(jc: Seq<Predicate>, left: PlanRef, right: PlanRef, db: Database)
    requires
        (*left).wf(),
        (*right).wf(),
        conj_wf(jc, (*left).width() + (*right).width()),
        (*left).width() + (*right).width() <= usize::MAX,
        plan_rows(*left, db) == filter_rows(
            side_conjuncts(left),
            cross_all(input_rows(flatten_side_inputs(left), db)),
        ),
        plan_rows(*right, db) == filter_rows(
            side_conjuncts(right),
            cross_all(input_rows(flatten_side_inputs(right), db)),
        ),
    ensures
        filter_rows(jc, cross_rows(plan_rows(*left, db), plan_rows(*right, db))) == filter_rows(
            jc + side_conjuncts(left) + conj_shift(side_conjuncts(right), (*left).width()),
            cross_all(input_rows(flatten_side_inputs(left) + flatten_side_inputs(right), db)),
        ),
{
    let lw = width_of(&left);
    let rw = width_of(&right);
    let lrows = rows_of(&left, db);
    let rrows = rows_of(&right, db);
    let fl = flatten_side_inputs(left);
    let fr = flatten_side_inputs(right);
    let cl = side_conjuncts(left);
    let cr = side_conjuncts(right);
    let xl = cross_all(input_rows(fl, db));
    let xr = cross_all(input_rows(fr, db));

    // The conjuncts each side contributes are well formed over that side's
    // width, and its operands' widths add up to it.
    lemma_flatten_side(left);
    lemma_flatten_side(right);

    // Widths of the two products.
    lemma_multi_width(fl, db);
    lemma_multi_width(fr, db);
    assert(all_width(xl, lw));
    assert(all_width(xr, rw));

    // Push both sides' filters out of the product.
    lemma_cross_filter_left(cl, xl, filter_rows(cr, xr), lw);
    lemma_cross_filter_right(cr, xl, xr, lw, rw);
    assert(cross_rows(lrows, rrows) == filter_rows(
        cl,
        filter_rows(conj_shift(cr, lw), cross_rows(xl, xr)),
    ));

    // Fuse the three filters into one conjunction.
    lemma_filter_rows_fuse(conj_shift(cr, lw), cl, cross_rows(xl, xr));
    lemma_filter_rows_fuse(conj_shift(cr, lw) + cl, jc, cross_rows(xl, xr));
    assert(filter_rows(jc, cross_rows(lrows, rrows)) == filter_rows(
        (conj_shift(cr, lw) + cl) + jc,
        cross_rows(xl, xr),
    ));

    // The merged node's product is the same product.
    lemma_input_rows_concat(fl, fr, db);
    lemma_cross_all_concat(input_rows(fl, db), input_rows(fr, db));
    assert(cross_all(input_rows(fl + fr, db)) == cross_rows(xl, xr));

    // The two conjunctions are permutations of the same conjuncts.
    let merged = jc + cl + conj_shift(cr, lw);
    assert forall|i: int| 0 <= i < cross_rows(xl, xr).len() implies conj_holds(
        (conj_shift(cr, lw) + cl) + jc,
        #[trigger] cross_rows(xl, xr)[i],
    ) == conj_holds(merged, cross_rows(xl, xr)[i]) by {
        let row = cross_rows(xl, xr)[i];
        lemma_conj_concat(conj_shift(cr, lw) + cl, jc, row);
        lemma_conj_concat(conj_shift(cr, lw), cl, row);
        lemma_conj_concat(jc + cl, conj_shift(cr, lw), row);
        lemma_conj_concat(jc, cl, row);
        assert(merged == (jc + cl) + conj_shift(cr, lw));
    }
    lemma_filter_rows_congruence((conj_shift(cr, lw) + cl) + jc, merged, cross_rows(xl, xr));
}

/// Flattening equivalence: the row set of a flattened multi-join — the
/// product of its operand list under its merged condition — is exactly the
/// row set of the chain of binary inner joins it was built from, however
/// deep the splice reached.
pub proof fn lemma_flatten_equivalence(j: LogicalJoin, mj: LogicalMultiJoin, db: Database)
    requires
        PlanNode::Join(j).wf(),
        j.join_type == JoinType::Inner,
        mj.inputs@ == flatten_side_inputs(j.left) + flatten_side_inputs(j.right),
        mj.on.conjunctions@ == j.on.conjunctions@ + side_conjuncts(j.left) + conj_shift(
            side_conjuncts(j.right),
            (*j.left).width(),
        ),
    ensures
        plan_rows(PlanNode::MultiJoin(mj), db) == plan_rows(PlanNode::Join(j), db),
        plan_rows(PlanNode::MultiJoin(mj), db).to_multiset() == plan_rows(
            PlanNode::Join(j),
            db,
        ).to_multiset(),
{
    assert((*j.left).wf());
    assert((*j.right).wf());
    lemma_side_rows(&j.left, db);
    lemma_side_rows(&j.right, db);
    lemma_join_splice(j.on.conjunctions@, j.left, j.right, db);
    assert(plan_rows(PlanNode::MultiJoin(mj), db) == plan_rows(PlanNode::Join(j), db));
}

} // verus!
