//! Predicate expressions, conjunctive conditions, and column-index
//! remappings.
//!
//! A `Condition` is a set of conjunctive predicates over the columns of a
//! row; it is the join condition of binary and n-ary joins. When joins are
//! flattened or columns are pruned, the column references inside a condition
//! are rewritten under a `ColIndexMapping`.

use vstd::prelude::*;

verus! {

/// A reference to an input column by positional index.
#[derive(Clone, Copy, Debug, PartialEq, Eq, Structural)]
pub struct InputRef {
    pub index: usize,
}

/// One atomic predicate over the columns of a row.
///
/// The closed set of predicate shapes is enough to express equi-join
/// conditions, constant filters and simple range conditions.
#[derive(Clone, Copy, Debug, PartialEq, Eq, Structural)]
pub enum Predicate {
    /// The two referenced columns hold equal values.
    EqCols(InputRef, InputRef),
    /// The referenced column holds exactly the given constant.
    EqConst(InputRef, i64),
    /// The first referenced column holds a value strictly below the second's.
    LtCols(InputRef, InputRef),
}

impl Predicate {
    /// Every column reference of this predicate lies below `width`.
    pub open spec fn wf(self, width: int) -> bool {
        match self {
            Predicate::EqCols(a, b) => a.index < width && b.index < width,
            Predicate::EqConst(a, _) => a.index < width,
            Predicate::LtCols(a, b) => a.index < width && b.index < width,
        }
    }

    /// Whether this predicate holds of the given row.
    pub open spec fn holds(self, row: Seq<i64>) -> bool {
        match self {
            Predicate::EqCols(a, b) => row[a.index as int] == row[b.index as int],
            Predicate::EqConst(a, c) => row[a.index as int] == c,
            Predicate::LtCols(a, b) => row[a.index as int] < row[b.index as int],
        }
    }

    /// The same predicate with every column reference moved up by `offset`.
    pub open spec fn spec_shift(self, offset: int) -> Predicate {
        match self {
            Predicate::EqCols(a, b) => Predicate::EqCols(
                InputRef { index: (a.index + offset) as usize },
                InputRef { index: (b.index + offset) as usize },
            ),
            Predicate::EqConst(a, c) => Predicate::EqConst(
                InputRef { index: (a.index + offset) as usize },
                c,
            ),
            Predicate::LtCols(a, b) => Predicate::LtCols(
                InputRef { index: (a.index + offset) as usize },
                InputRef { index: (b.index + offset) as usize },
            ),
        }
    }

    /// Evaluate this predicate on a row of column values.
    pub fn eval(&self, row: &Vec<i64>) -> (r: bool)
        requires
            self.wf(row@.len() as int),
        ensures
            r == self.holds(row@),
    {
        match self {
            Predicate::EqCols(a, b) => row[a.index] == row[b.index],
            Predicate::EqConst(a, c) => row[a.index] == *c,
            Predicate::LtCols(a, b) => row[a.index] < row[b.index],
        }
    }
}

/// A column-index remapping that moves every reference up by a fixed offset.
///
/// Flattening a join splices the conditions carried by a nested join into
/// the combined numbering of the flattened node; the references of a
/// condition that was local to the right-hand subtree are moved up by the
/// combined width of everything to its left.
#[derive(Clone, Copy, Debug, PartialEq, Eq, Structural)]
pub struct ColIndexMapping {
    pub offset: usize,
}

impl ColIndexMapping {
    /// A mapping that sends column `i` to column `i + offset`.
    pub fn with_shift_offset(offset: usize) -> (r: ColIndexMapping)
        ensures
            r.offset == offset,
    {
        ColIndexMapping { offset }
    }
}

/// A conjunction of predicates: the condition of a join or a filter.
#[derive(Debug)]
pub struct Condition {
    pub conjunctions: Vec<Predicate>,
}

impl Clone for Condition {
    fn clone(&self) -> (r: Condition)
        ensures
            r.conjunctions@ == self.conjunctions@,
    {
        let conjunctions = self.conjunctions.clone();
        proof {
            assert(conjunctions@ =~= self.conjunctions@);
        }
        Condition { conjunctions }
    }
}

/// Every column reference of every predicate of the list lies below
/// `width`.
pub open spec fn conj_wf(ps: Seq<Predicate>, width: int) -> bool {
    forall|i: int| 0 <= i < ps.len() ==> #[trigger] ps[i].wf(width)
}

/// Whether every predicate of the list holds of the given row.
pub open spec fn conj_holds(ps: Seq<Predicate>, row: Seq<i64>) -> bool {
    forall|i: int| 0 <= i < ps.len() ==> #[trigger] ps[i].holds(row)
}

/// The list with every column reference of every predicate moved up by
/// `offset`.
pub open spec fn conj_shift(ps: Seq<Predicate>, offset: int) -> Seq<Predicate> {
    ps.map_values(|p: Predicate| p.spec_shift(offset))
}

/// A conjunction laid end to end holds exactly when both parts hold.
pub proof fn lemma_conj_concat(a: Seq<Predicate>, b: Seq<Predicate>, row: Seq<i64>)
    ensures
        conj_holds(a + b, row) == (conj_holds(a, row) && conj_holds(b, row)),
{
    if conj_holds(a + b, row) {
        assert forall|i: int| 0 <= i < a.len() implies #[trigger] a[i].holds(row) by {
            assert((a + b)[i] == a[i]);
        }
        assert forall|i: int| 0 <= i < b.len() implies #[trigger] b[i].holds(row) by {
            assert((a + b)[a.len() + i] == b[i]);
        }
    }
    if conj_holds(a, row) && conj_holds(b, row) {
        assert forall|i: int| 0 <= i < (a + b).len() implies #[trigger] (a + b)[i].holds(row) by {
            if i < a.len() {
                assert((a + b)[i] == a[i]);
            } else {
                assert((a + b)[i] == b[i - a.len()]);
            }
        }
    }
}

/// Predicates over the left operand's columns read the same cells in the
/// combined row: the conjunction holds of `left + right` exactly when it
/// holds of `left`.
pub proof fn lemma_conj_concat_left(ps: Seq<Predicate>, left: Seq<i64>, right: Seq<i64>)
    requires
        conj_wf(ps, left.len() as int),
    ensures
        conj_holds(ps, left + right) == conj_holds(ps, left),
{
    assert forall|i: int| 0 <= i < ps.len() implies #[trigger] ps[i].holds(left + right) == ps[
        i
    ].holds(left) by {
        lemma_holds_on_concat_left(ps[i], left, right);
    }
    if conj_holds(ps, left + right) {
        assert forall|i: int| 0 <= i < ps.len() implies #[trigger] ps[i].holds(left) by {
            assert(ps[i].holds(left + right));
        }
    }
    if conj_holds(ps, left) {
        assert forall|i: int| 0 <= i < ps.len() implies #[trigger] ps[i].holds(left + right) by {
            assert(ps[i].holds(left));
        }
    }
}

/// Predicates local to the right operand, shifted up by the left operand's
/// width, hold of the combined row exactly when the originals hold of the
/// right row.
pub proof fn lemma_conj_shift_concat(ps: Seq<Predicate>, left: Seq<i64>, right: Seq<i64>)
    requires
        conj_wf(ps, right.len() as int),
        left.len() + right.len() <= usize::MAX,
    ensures
        conj_holds(conj_shift(ps, left.len() as int), left + right) == conj_holds(ps, right),
        conj_wf(conj_shift(ps, left.len() as int), (left.len() + right.len()) as int),
{
    let shifted = conj_shift(ps, left.len() as int);
    assert(shifted.len() == ps.len());
    assert forall|i: int| 0 <= i < shifted.len() implies #[trigger] shifted[i].holds(left + right)
        == ps[i].holds(right) by {
        assert(shifted[i] == ps[i].spec_shift(left.len() as int));
        lemma_shift_holds_on_concat(ps[i], left, right);
    }
    assert forall|i: int| 0 <= i < shifted.len() implies #[trigger] shifted[i].wf(
        (left.len() + right.len()) as int,
    ) by {
        assert(shifted[i] == ps[i].spec_shift(left.len() as int));
        lemma_shift_wf(ps[i], left.len() as int, right.len() as int);
    }
    if conj_holds(shifted, left + right) {
        assert forall|i: int| 0 <= i < ps.len() implies #[trigger] ps[i].holds(right) by {
            assert(shifted[i].holds(left + right));
        }
    }
    if conj_holds(ps, right) {
        assert forall|i: int| 0 <= i < shifted.len() implies #[trigger] shifted[i].holds(
            left + right,
        ) by {
            assert(ps[i].holds(right));
        }
    }
}

impl Condition {
    /// Every column reference of every conjunct lies below `width`.
    pub open spec fn wf(self, width: int) -> bool {
        conj_wf(self.conjunctions@, width)
    }

    /// Whether every conjunct holds of the given row.
    pub open spec fn holds(self, row: Seq<i64>) -> bool {
        conj_holds(self.conjunctions@, row)
    }

    /// A condition with no conjuncts: it holds of every row.
    pub fn always_true() -> (r: Condition)
        ensures
            r.conjunctions@.len() == 0,
            forall|row: Seq<i64>| r.holds(row),
    {
        Condition { conjunctions: Vec::new() }
    }

    /// Evaluate this condition on a row of column values.
    pub fn eval(&self, row: &Vec<i64>) -> (r: bool)
        requires
            self.wf(row@.len() as int),
        ensures
            r == self.holds(row@),
    {
        let n = self.conjunctions.len();
        let mut k: usize = 0;
        while k < n
            invariant
                n == self.conjunctions@.len(),
                k <= n,
                self.wf(row@.len() as int),
                forall|i: int| 0 <= i < k ==> #[trigger] self.conjunctions@[i].holds(row@),
            decreases n - k,
        {
            if !self.conjunctions[k].eval(row) {
                return false;
            }
            k += 1;
        }
        true
    }

    /// The same condition with every column reference moved up by the
    /// mapping's offset.
    ///
    /// The caller bounds the references by `width` so that no shifted index
    /// can exceed `usize`.
    pub fn rewrite_expr(&self, mapping: &ColIndexMapping, width: usize) -> (r: Condition)
        requires
            self.wf(width as int),
            width + mapping.offset <= usize::MAX,
        ensures
            r.conjunctions@.len() == self.conjunctions@.len(),
            forall|i: int| 0 <= i < self.conjunctions@.len() ==> #[trigger] r.conjunctions@[i]
                == self.conjunctions@[i].spec_shift(mapping.offset as int),
    {
        let n = self.conjunctions.len();
        let mut out: Vec<Predicate> = Vec::new();
        let mut k: usize = 0;
        while k < n
            invariant
                n == self.conjunctions@.len(),
                k <= n,
                self.wf(width as int),
                width + mapping.offset <= usize::MAX,
                out@.len() == k,
                forall|i: int| 0 <= i < k ==> #[trigger] out@[i] == self.conjunctions@[i].spec_shift(
                    mapping.offset as int,
                ),
            decreases n - k,
        {
            proof {
                assert(self.conjunctions@[k as int].wf(width as int));
            }
            let p = match self.conjunctions[k] {
                Predicate::EqCols(a, b) => Predicate::EqCols(
                    InputRef { index: a.index + mapping.offset },
                    InputRef { index: b.index + mapping.offset },
                ),
                Predicate::EqConst(a, c) => Predicate::EqConst(
                    InputRef { index: a.index + mapping.offset },
                    c,
                ),
                Predicate::LtCols(a, b) => Predicate::LtCols(
                    InputRef { index: a.index + mapping.offset },
                    InputRef { index: b.index + mapping.offset },
                ),
            };
            out.push(p);
            k += 1;
        }
        Condition { conjunctions: out }
    }
}

/// A shift by nothing changes nothing.
pub proof fn lemma_conj_shift_zero(ps: Seq<Predicate>)
    ensures
        conj_shift(ps, 0) == ps,
{
    assert forall|i: int| 0 <= i < ps.len() implies #[trigger] conj_shift(ps, 0)[i] == ps[i] by {
        match ps[i] {
            Predicate::EqCols(a, b) => {},
            Predicate::EqConst(a, _) => {},
            Predicate::LtCols(a, b) => {},
        }
    }
    assert(conj_shift(ps, 0) =~= ps);
}

/// Two shifts one after the other are one shift by their sum, as long as no
/// shifted reference leaves the index range.
pub proof fn lemma_conj_shift_compose(ps: Seq<Predicate>, a: int, b: int, width: int)
    requires
        conj_wf(ps, width),
        0 <= a,
        0 <= b,
        0 <= width,
        width + a + b <= usize::MAX,
    ensures
        conj_shift(conj_shift(ps, a), b) == conj_shift(ps, a + b),
{
    assert forall|i: int| 0 <= i < ps.len() implies #[trigger] conj_shift(conj_shift(ps, a), b)[i]
        == conj_shift(ps, a + b)[i] by {
        assert(conj_shift(ps, a)[i] == ps[i].spec_shift(a));
        assert(ps[i].wf(width));
    }
    assert(conj_shift(conj_shift(ps, a), b) =~= conj_shift(ps, a + b));
}

/// A shift distributes over laying two conjunctions end to end.
pub proof fn lemma_conj_shift_split(a: Seq<Predicate>, b: Seq<Predicate>, offset: int)
    ensures
        conj_shift(a + b, offset) == conj_shift(a, offset) + conj_shift(b, offset),
{
    assert forall|i: int| 0 <= i < (a + b).len() implies #[trigger] conj_shift(a + b, offset)[i]
        == (conj_shift(a, offset) + conj_shift(b, offset))[i] by {
        if i < a.len() {
            assert((a + b)[i] == a[i]);
        } else {
            assert((a + b)[i] == b[i - a.len()]);
        }
    }
    assert(conj_shift(a + b, offset) =~= conj_shift(a, offset) + conj_shift(b, offset));
}

/// Shifting keeps a predicate well formed: references below `width` moved up
/// by `offset` lie below `width + offset`.
pub proof fn lemma_shift_wf(p: Predicate, offset: int, width: int)
    requires
        p.wf(width),
        0 <= offset,
        0 <= width,
        width + offset <= usize::MAX,
    ensures
        p.spec_shift(offset).wf(width + offset),
{
}

/// Shifting a predicate that is local to the right operand of a join by the
/// width of the left operand makes it refer, in the combined row, to exactly
/// the columns it referred to in the right row: the shifted predicate holds
/// of `left + right` precisely when the original holds of `right`.
pub proof fn lemma_shift_holds_on_concat(p: Predicate, left: Seq<i64>, right: Seq<i64>)
    requires
        p.wf(right.len() as int),
        left.len() + right.len() <= usize::MAX,
    ensures
        p.spec_shift(left.len() as int).holds(left + right) == p.holds(right),
        p.spec_shift(left.len() as int).wf((left.len() + right.len()) as int),
{
    match p {
        Predicate::EqCols(a, b) => {
            assert((left + right)[a.index + left.len()] == right[a.index as int]);
            assert((left + right)[b.index + left.len()] == right[b.index as int]);
        },
        Predicate::EqConst(a, _) => {
            assert((left + right)[a.index + left.len()] == right[a.index as int]);
        },
        Predicate::LtCols(a, b) => {
            assert((left + right)[a.index + left.len()] == right[a.index as int]);
            assert((left + right)[b.index + left.len()] == right[b.index as int]);
        },
    }
}

/// A predicate that is local to the left operand of a join reads the same
/// columns in the combined row: it holds of `left + right` precisely when it
/// holds of `left`.
pub proof fn lemma_holds_on_concat_left(p: Predicate, left: Seq<i64>, right: Seq<i64>)
    requires
        p.wf(left.len() as int),
    ensures
        p.holds(left + right) == p.holds(left),
{
    match p {
        Predicate::EqCols(a, b) => {
            assert((left + right)[a.index as int] == left[a.index as int]);
            assert((left + right)[b.index as int] == left[b.index as int]);
        },
        Predicate::EqConst(a, _) => {
            assert((left + right)[a.index as int] == left[a.index as int]);
        },
        Predicate::LtCols(a, b) => {
            assert((left + right)[a.index as int] == left[a.index as int]);
            assert((left + right)[b.index as int] == left[b.index as int]);
        },
    }
}

} // verus!
