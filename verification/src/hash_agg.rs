//! The vectorized grouped hash-aggregation executor.
//!
//! A physical runtime operator: it pulls batches from its child, keeps one
//! accumulator set per distinct group key — created lazily on first sight of
//! the key, fed exactly once per row — and, once the child is exhausted,
//! emits a single result batch holding the grouping columns first and one
//! aggregate result per call after them, then reports completion forever.
//! Memory is proportional to the number of distinct groups, never to the
//! number of input rows.

use vstd::prelude::*;
use crate::agg::{
    agg_init, agg_over, agg_prefix_in_range, agg_return_type, agg_step, AggCall, AggState,
    AggStateFactory,
};
use crate::catalog::{DataType, Field, Schema};
use crate::chunk::{in_i32_range, Column, DataChunk};
use crate::error::ErrorCode;
use crate::hash_key::{key_decode, key_kind_of, HashKey, KeyKind};
use crate::semantics::row_select;

verus! {

/// The distinct grouping-key tuples of a row sequence, each listed once, in
/// first-seen order.
pub open spec fn distinct_keys(rows: Seq<Seq<i64>>, cols: Seq<usize>) -> Seq<Seq<i64>>
    decreases rows.len(),
{
    if rows.len() == 0 {
        Seq::empty()
    } else {
        let prev = distinct_keys(rows.drop_last(), cols);
        if prev.contains(row_select(rows.last(), cols)) {
            prev
        } else {
            prev.push(row_select(rows.last(), cols))
        }
    }
}

/// The rows whose grouping-key tuple is `key`, in row order.
pub open spec fn matching_rows(rows: Seq<Seq<i64>>, cols: Seq<usize>, key: Seq<i64>) -> Seq<
    Seq<i64>,
> {
    rows.filter(|r: Seq<i64>| row_select(r, cols) == key)
}

/// Whether every accumulator the single pass goes through stays
/// representable: for every group and every call, every prefix of the
/// group's rows folds to a value in the `i64` range.
pub open spec fn updates_ok(rows: Seq<Seq<i64>>, cols: Seq<usize>, calls: Seq<AggCall>) -> bool {
    forall|g: int, a: int|
        0 <= g < distinct_keys(rows, cols).len() && 0 <= a < calls.len()
            ==> agg_prefix_in_range(
            (#[trigger] calls[a]).kind,
            calls[a].arg as int,
            matching_rows(rows, cols, #[trigger] distinct_keys(rows, cols)[g]),
        )
}

/// The result rows of a grouped aggregation: one row per distinct key, in
/// first-seen order, the key's values first and one aggregate per call
/// after them. With no grouping columns and no input, the identity
/// aggregates still form one meaningful row.
pub open spec fn agg_result_rows(
    rows: Seq<Seq<i64>>,
    cols: Seq<usize>,
    calls: Seq<AggCall>,
) -> Seq<Seq<i64>> {
    if cols.len() == 0 && rows.len() == 0 {
        seq![Seq::new(calls.len(), |a: int| agg_init(calls[a].kind) as i64)]
    } else {
        Seq::new(
            distinct_keys(rows, cols).len(),
            |g: int| distinct_keys(rows, cols)[g] + Seq::new(
                calls.len(),
                |a: int| agg_over(
                    calls[a].kind,
                    calls[a].arg as int,
                    matching_rows(rows, cols, distinct_keys(rows, cols)[g]),
                ) as i64,
            ),
        )
    }
}

/// Appending a row extends the key list by its key exactly when that key is
/// new.
pub proof fn lemma_distinct_push(rows: Seq<Seq<i64>>, cols: Seq<usize>, r: Seq<i64>)
    ensures
        distinct_keys(rows.push(r), cols) == if distinct_keys(rows, cols).contains(
            row_select(r, cols),
        ) {
            distinct_keys(rows, cols)
        } else {
            distinct_keys(rows, cols).push(row_select(r, cols))
        },
{
    assert(rows.push(r).drop_last() =~= rows);
    assert(rows.push(r).last() == r);
}

/// Appending a row extends exactly its own group's rows.
pub proof fn lemma_matching_push(
    rows: Seq<Seq<i64>>,
    cols: Seq<usize>,
    key: Seq<i64>,
    r: Seq<i64>,
)
    ensures
        matching_rows(rows.push(r), cols, key) == if row_select(r, cols) == key {
            matching_rows(rows, cols, key).push(r)
        } else {
            matching_rows(rows, cols, key)
        },
{
    reveal(Seq::filter);
    assert(rows.push(r).drop_last() =~= rows);
    assert(rows.push(r).last() == r);
}

/// A key the key list does not hold matches no row.
pub proof fn lemma_matching_of_unseen(rows: Seq<Seq<i64>>, cols: Seq<usize>, key: Seq<i64>)
    requires
        !distinct_keys(rows, cols).contains(key),
    ensures
        matching_rows(rows, cols, key) == Seq::<Seq<i64>>::empty(),
    decreases rows.len(),
{
    reveal(Seq::filter);
    if rows.len() == 0 {
    } else {
        let prev = distinct_keys(rows.drop_last(), cols);
        assert(!prev.contains(key)) by {
            if prev.contains(key) {
                if prev.contains(row_select(rows.last(), cols)) {
                    assert(distinct_keys(rows, cols).contains(key));
                } else {
                    let i = choose|i: int| 0 <= i < prev.len() && prev[i] == key;
                    assert(distinct_keys(rows, cols)[i] == key);
                }
            }
        }
        lemma_matching_of_unseen(rows.drop_last(), cols, key);
        assert(row_select(rows.last(), cols) != key) by {
            if row_select(rows.last(), cols) == key {
                if prev.contains(key) {
                } else {
                    assert(distinct_keys(rows, cols).last() == key);
                }
            }
        }
    }
}

/// A fold that has already left the range does not come back by seeing more
/// rows.
pub proof fn lemma_prefix_range_extend(kind: crate::agg::AggKind, arg: int, s: Seq<Seq<i64>>, x: Seq<i64>)
    requires
        !agg_prefix_in_range(kind, arg, s),
    ensures
        !agg_prefix_in_range(kind, arg, s.push(x)),
{
    assert(s.push(x).drop_last() =~= s);
}

/// A pass that has already failed keeps failing however many rows follow.
pub proof fn lemma_updates_ok_monotone(
    rows: Seq<Seq<i64>>,
    cols: Seq<usize>,
    calls: Seq<AggCall>,
    more: Seq<Seq<i64>>,
)
    requires
        !updates_ok(rows, cols, calls),
    ensures
        !updates_ok(rows + more, cols, calls),
    decreases more.len(),
{
    if more.len() == 0 {
        assert(rows + more =~= rows);
    } else {
        lemma_updates_ok_one(rows, cols, calls, more[0]);
        lemma_updates_ok_monotone(rows.push(more[0]), cols, calls, more.drop_first());
        assert(rows.push(more[0]) + more.drop_first() =~= rows + more);
    }
}

/// One more row cannot repair a failed pass.
pub proof fn lemma_updates_ok_one(
    rows: Seq<Seq<i64>>,
    cols: Seq<usize>,
    calls: Seq<AggCall>,
    r: Seq<i64>,
)
    requires
        !updates_ok(rows, cols, calls),
    ensures
        !updates_ok(rows.push(r), cols, calls),
{
    let keys = distinct_keys(rows, cols);
    let (g, a) = choose|g: int, a: int|
        0 <= g < keys.len() && 0 <= a < calls.len() && !agg_prefix_in_range(
            (#[trigger] calls[a]).kind,
            calls[a].arg as int,
            matching_rows(rows, cols, #[trigger] keys[g]),
        );
    lemma_distinct_push(rows, cols, r);
    let keys2 = distinct_keys(rows.push(r), cols);
    assert(keys2[g] == keys[g]);
    lemma_matching_push(rows, cols, keys[g], r);
    if row_select(r, cols) == keys[g] {
        lemma_prefix_range_extend(calls[a].kind, calls[a].arg as int, matching_rows(
            rows,
            cols,
            keys[g],
        ), r);
    }
    assert(!agg_prefix_in_range(
        calls[a].kind,
        calls[a].arg as int,
        matching_rows(rows.push(r), cols, keys2[g]),
    ));
}

/// The key list holds each key once: no two positions agree.
pub proof fn lemma_distinct_no_dup(rows: Seq<Seq<i64>>, cols: Seq<usize>)
    ensures
        forall|i: int, j: int|
            0 <= i < j < distinct_keys(rows, cols).len() ==> #[trigger] distinct_keys(
                rows,
                cols,
            )[i] != #[trigger] distinct_keys(rows, cols)[j],
    decreases rows.len(),
{
    if rows.len() == 0 {
    } else {
        lemma_distinct_no_dup(rows.drop_last(), cols);
        let prev = distinct_keys(rows.drop_last(), cols);
        let k = row_select(rows.last(), cols);
        if !prev.contains(k) {
            assert forall|i: int, j: int|
                0 <= i < j < distinct_keys(rows, cols).len() implies #[trigger] distinct_keys(
                rows,
                cols,
            )[i] != #[trigger] distinct_keys(rows, cols)[j] by {
                if j == prev.len() {
                    assert(distinct_keys(rows, cols)[i] == prev[i]);
                    if prev[i] == k {
                        assert(prev.contains(k));
                    }
                } else {
                    assert(distinct_keys(rows, cols)[i] == prev[i]);
                    assert(distinct_keys(rows, cols)[j] == prev[j]);
                }
            }
        }
    }
}

/// The rows of a chunk list from position `from` on, concatenated in order.
pub open spec fn chunks_rows(chunks: Seq<DataChunk>, from: int) -> Seq<Seq<i64>>
    decreases chunks.len() - from,
{
    if from >= chunks.len() {
        Seq::empty()
    } else {
        chunks[from].spec_rows() + chunks_rows(chunks, from + 1)
    }
}

/// Removing the first chunk splits the remaining rows at its boundary.
pub proof fn lemma_chunks_rows_step(chunks: Seq<DataChunk>)
    requires
        chunks.len() > 0,
    ensures
        chunks_rows(chunks, 0) == chunks[0].spec_rows() + chunks_rows(chunks.drop_first(), 0),
    decreases chunks.len(),
{
    lemma_chunks_rows_shift(chunks, 1);
}

/// The rows from position `from + 1` of a list are the rows of the list
/// without its head, from position `from`.
pub proof fn lemma_chunks_rows_shift(chunks: Seq<DataChunk>, from: int)
    requires
        chunks.len() > 0,
        1 <= from <= chunks.len(),
    ensures
        chunks_rows(chunks, from) == chunks_rows(chunks.drop_first(), from - 1),
    decreases chunks.len() - from,
{
    if from >= chunks.len() {
    } else {
        lemma_chunks_rows_shift(chunks, from + 1);
        assert(chunks.drop_first()[from - 1] == chunks[from]);
    }
}

/// What one pull from an operator yields: a batch, or the signal that its
/// output is exhausted.
pub enum ExecutorResult {
    Batch(DataChunk),
    Done,
}

/// A child operator whose output is already materialized: it hands out its
/// batches in order. It stands in for the pull side of the operator graph,
/// whose far end the runtime driver owns.
pub struct MockExecutor {
    pub chunks: Vec<DataChunk>,
    pub schema: Schema,
}

impl MockExecutor {
    /// Every batch is well formed and matches the declared schema.
    pub open spec fn wf(self) -> bool {
        forall|i: int| 0 <= i < self.chunks@.len() ==> (#[trigger] self.chunks@[i]).wf()
            && self.chunks@[i].spec_types() == self.schema.types()
    }

    /// The rows this operator has not yet handed out.
    pub open spec fn remaining(self) -> Seq<Seq<i64>> {
        chunks_rows(self.chunks@, 0)
    }

    /// Hand out the next batch, or report exhaustion.
    pub fn next_chunk(&mut self) -> (r: Option<DataChunk>)
        requires
            old(self).wf(),
        ensures
            final(self).wf(),
            final(self).schema == old(self).schema,
            match r {
                Some(c) => {
                    &&& old(self).chunks@.len() > 0
                    &&& c == old(self).chunks@[0]
                    &&& c.wf()
                    &&& c.spec_types() == old(self).schema.types()
                    &&& final(self).chunks@ == old(self).chunks@.drop_first()
                    &&& old(self).remaining() == c.spec_rows() + final(self).remaining()
                },
                None => {
                    &&& old(self).chunks@.len() == 0
                    &&& *final(self) == *old(self)
                    &&& old(self).remaining() == Seq::<Seq<i64>>::empty()
                },
            },
    {
        if self.chunks.len() == 0 {
            return None;
        }
        let c = self.chunks.remove(0);
        proof {
            assert(self.chunks@ =~= old(self).chunks@.drop_first());
            assert forall|i: int| 0 <= i < self.chunks@.len() implies (#[trigger] self.chunks@[
                i
            ]).wf() && self.chunks@[i].spec_types() == self.schema.types() by {
                assert(self.chunks@[i] == old(self).chunks@[i + 1]);
            }
            lemma_chunks_rows_step(old(self).chunks@);
        }
        Some(c)
    }

    /// A source holding the given batches; each must match the schema.
    pub fn with_chunks(chunks: Vec<DataChunk>, schema: Schema) -> (r: Result<
        MockExecutor,
        ErrorCode,
    >)
        requires
            forall|i: int| 0 <= i < chunks@.len() ==> (#[trigger] chunks@[i]).wf(),
        ensures
            r is Ok <==> (forall|i: int| 0 <= i < chunks@.len() ==> (#[trigger] chunks@[
                i
            ]).spec_types() == schema.types()),
            match r {
                Ok(m) => {
                    &&& m.chunks@ == chunks@
                    &&& m.schema == schema
                    &&& m.wf()
                },
                Err(e) => e == ErrorCode::SchemaMismatch,
            },
    {
        let n = chunks.len();
        let mut i: usize = 0;
        while i < n
            invariant
                n == chunks@.len(),
                i <= n,
                forall|k: int| 0 <= k < i ==> (#[trigger] chunks@[k]).spec_types()
                    == schema.types(),
            decreases n - i,
        {
            let chunk = &chunks[i];
            let m = chunk.column_count();
            if m != schema.fields.len() {
                proof {
                    assert(chunks@[i as int].spec_types().len() != schema.types().len());
                }
                return Err(ErrorCode::SchemaMismatch);
            }
            let mut j: usize = 0;
            while j < m
                invariant
                    n == chunks@.len(),
                    i < n,
                    m == chunks@[i as int].columns@.len(),
                    m == schema.fields@.len(),
                    j <= m,
                    chunk == &chunks@[i as int],
                    forall|k: int| 0 <= k < j ==> #[trigger] chunks@[i as int].columns@[
                        k
                    ].data_type == schema.fields@[k].data_type,
                decreases m - j,
            {
                if chunk.columns[j].data_type != schema.fields[j].data_type {
                    proof {
                        assert(chunks@[i as int].spec_types()[j as int] != schema.types()[
                            j as int
                        ]);
                    }
                    return Err(ErrorCode::SchemaMismatch);
                }
                j += 1;
            }
            proof {
                assert(chunks@[i as int].spec_types() =~= schema.types());
            }
            i += 1;
        }
        Ok(MockExecutor { chunks, schema })
    }

    /// A source holding one batch.
    pub fn with_chunk(chunk: DataChunk, schema: Schema) -> (r: Result<MockExecutor, ErrorCode>)
        requires
            chunk.wf(),
        ensures
            r is Ok <==> chunk.spec_types() == schema.types(),
            match r {
                Ok(m) => {
                    &&& m.chunks@ =~= seq![chunk]
                    &&& m.schema == schema
                    &&& m.wf()
                },
                Err(e) => e == ErrorCode::SchemaMismatch,
            },
    {
        let mut chunks: Vec<DataChunk> = Vec::new();
        chunks.push(chunk);
        proof {
            assert(chunks@ =~= seq![chunk]);
            assert(chunks@[0] == chunk);
        }
        let r = Self::with_chunks(chunks, schema);
        proof {
            if chunk.spec_types() == schema.types() {
                assert(forall|i: int| 0 <= i < chunks@.len() ==> (#[trigger] chunks@[
                    i
                ]).spec_types() == schema.types());
            } else {
                assert(!(chunks@[0].spec_types() == schema.types()));
            }
        }
        r
    }
}

/// One group of the table: the group's key and one accumulator per
/// aggregate call.
pub struct GroupEntry {
    pub key: HashKey,
    pub states: Vec<AggState>,
}

/// The plan-node description a hash-aggregation executor is built from: the
/// grouping columns and the aggregate calls.
pub struct HashAggNode {
    pub group_keys: Vec<usize>,
    pub agg_calls: Vec<AggCall>,
}

/// The hash-aggregation operator.
pub struct HashAggExecutor {
    /// Builds the accumulators of each group, one factory per call.
    pub agg_factories: Vec<AggStateFactory>,
    /// Column indexes of the keys that identify a group.
    pub group_key_columns: Vec<usize>,
    /// The child operator the pass consumes.
    pub child: MockExecutor,
    /// The group table: one entry per distinct key, in first-seen order.
    pub groups: Vec<GroupEntry>,
    /// Whether the one result batch has been emitted.
    pub done: bool,
    /// The types of the grouping columns.
    pub group_key_types: Vec<DataType>,
    /// The output schema: grouping columns first, aggregate results after.
    pub schema: Schema,
    /// The key strategy, picked from the grouping column types at build
    /// time.
    pub key_kind: KeyKind,
    /// The rows consumed so far; the group table is a pure function of
    /// them.
    pub processed: Ghost<Seq<Seq<i64>>>,
}

impl HashAggExecutor {
    /// The width of the child's rows.
    pub open spec fn input_width(self) -> int {
        self.child.schema.fields@.len() as int
    }

    /// The aggregate calls, in declared order.
    pub open spec fn calls(self) -> Seq<AggCall> {
        self.agg_factories@.map_values(|f: AggStateFactory| f.call)
    }

    /// The distinct keys of the rows consumed so far, in first-seen order.
    pub open spec fn keys(self) -> Seq<Seq<i64>> {
        distinct_keys(self.processed@, self.group_key_columns@)
    }

    /// The operator's invariant: configuration indices are in range, the
    /// output schema lists grouping columns before aggregate results, and
    /// the group table is exactly the aggregation of the rows consumed so
    /// far.
    pub open spec fn wf(self) -> bool {
        &&& self.child.wf()
        &&& forall|i: int| 0 <= i < self.group_key_columns@.len()
            ==> #[trigger] self.group_key_columns@[i] < self.input_width()
        &&& forall|a: int| 0 <= a < self.agg_factories@.len() ==> (#[trigger] self.agg_factories@[
            a
        ]).call.arg < self.input_width() && self.agg_factories@[a].call.return_type
            == agg_return_type(self.agg_factories@[a].call.kind)
        &&& self.group_key_types@.len() == self.group_key_columns@.len()
        &&& forall|i: int| 0 <= i < self.group_key_columns@.len()
            ==> #[trigger] self.group_key_types@[i] == self.child.schema.fields@[
            self.group_key_columns@[i] as int
        ].data_type
        &&& (self.key_kind == KeyKind::Packed ==> self.group_key_columns@.len() == 2
            && self.group_key_types@[0] == DataType::Int32 && self.group_key_types@[1]
            == DataType::Int32)
        &&& self.schema.fields@.len() == self.group_key_columns@.len()
            + self.agg_factories@.len()
        &&& forall|i: int| 0 <= i < self.group_key_columns@.len()
            ==> (#[trigger] self.schema.fields@[i]).data_type == self.group_key_types@[i]
        &&& forall|a: int| 0 <= a < self.agg_factories@.len()
            ==> (#[trigger] self.schema.fields@[self.group_key_columns@.len() + a]).data_type
            == self.agg_factories@[a].call.return_type
        &&& crate::semantics::all_width(self.processed@, self.input_width())
        &&& forall|g: int, j: int| 0 <= g < self.keys().len() && 0 <= j
            < self.group_key_columns@.len() && self.group_key_types@[j] == DataType::Int32
            ==> in_i32_range(#[trigger] self.keys()[g][j])
        &&& forall|g: int| 0 <= g < self.keys().len() ==> (#[trigger] self.keys()[g]).len()
            == self.group_key_columns@.len()
        &&& self.groups@.len() == self.keys().len()
        &&& forall|g: int| 0 <= g < self.groups@.len() ==> {
            let entry = #[trigger] self.groups@[g];
            &&& key_kind_of(entry.key) == self.key_kind
            &&& key_decode(entry.key) == self.keys()[g]
            &&& entry.states@.len() == self.agg_factories@.len()
            &&& forall|a: int| 0 <= a < entry.states@.len() ==> (#[trigger] entry.states@[
                a
            ]).call == self.agg_factories@[a].call && entry.states@[a].acc == agg_over(
                self.agg_factories@[a].call.kind,
                self.agg_factories@[a].call.arg as int,
                matching_rows(self.processed@, self.group_key_columns@, self.keys()[g]),
            )
        }
        &&& updates_ok(self.processed@, self.group_key_columns@, self.calls())
    }
}

/// One grouping cell of a row: where it comes from in the batch, and that
/// an `Int32` grouping column keeps it in the 32-bit range.
proof fn lemma_group_cell(e: &HashAggExecutor, chunk: &DataChunk, row_id: int, j: int)
    requires
        e.wf(),
        chunk.wf(),
        chunk.spec_types() == e.child.schema.types(),
        0 <= row_id < chunk.cardinality,
        0 <= j < e.group_key_columns@.len(),
    ensures
        row_select(chunk.spec_rows()[row_id], e.group_key_columns@)[j] == chunk.spec_rows()[
            row_id
        ][e.group_key_columns@[j] as int],
        e.group_key_types@[j] == DataType::Int32 ==> in_i32_range(
            row_select(chunk.spec_rows()[row_id], e.group_key_columns@)[j],
        ),
{
    let c = e.group_key_columns@[j] as int;
    assert(chunk.spec_types().len() == chunk.columns@.len());
    assert(e.child.schema.types().len() == e.child.schema.fields@.len());
    assert(chunk.columns@.len() == e.child.schema.fields@.len());
    assert(chunk.spec_types()[c] == chunk.columns@[c].data_type);
    assert(e.child.schema.types()[c] == e.child.schema.fields@[c].data_type);
    assert(chunk.spec_rows()[row_id][c] == chunk.columns@[c].values@[row_id]);
    if e.group_key_types@[j] == DataType::Int32 {
        assert(chunk.columns@[c].data_type == DataType::Int32);
        assert(chunk.columns@[c].wf());
        assert(in_i32_range(chunk.columns@[c].values@[row_id]));
    }
}

impl HashAggExecutor {
    /// Fold one row into the group table: compute its key, find or lazily
    /// create its group, and feed the row to every accumulator of that
    /// group exactly once, in declared order. The row is folded atomically:
    /// if any accumulator would leave the representable range, none is
    /// changed and the overflow aborts the aggregation.
    #[verifier::rlimit(100)]
    fn consume_row(&mut self, chunk: &DataChunk, row_id: usize) -> (r: Result<(), ErrorCode>)
        requires
            old(self).wf(),
            chunk.wf(),
            chunk.spec_types() == old(self).child.schema.types(),
            row_id < chunk.cardinality,
        ensures
            final(self).wf(),
            final(self).agg_factories == old(self).agg_factories,
            final(self).group_key_columns == old(self).group_key_columns,
            final(self).child == old(self).child,
            final(self).done == old(self).done,
            final(self).group_key_types == old(self).group_key_types,
            final(self).schema == old(self).schema,
            final(self).key_kind == old(self).key_kind,
            r is Ok <==> updates_ok(
                old(self).processed@.push(chunk.spec_rows()[row_id as int]),
                old(self).group_key_columns@,
                old(self).calls(),
            ),
            match r {
                Ok(()) => final(self).processed@ == old(self).processed@.push(
                    chunk.spec_rows()[row_id as int],
                ),
                Err(e) => {
                    &&& e == ErrorCode::NumericOverflow
                    &&& final(self).processed@ == old(self).processed@
                },
            },
    {
        let ghost row = chunk.spec_rows()[row_id as int];
        let ghost cols = self.group_key_columns@;
        let ghost calls = self.calls();
        let ghost processed0 = self.processed@;
        let ghost tuple = row_select(row, cols);
        let ghost keys0 = self.keys();

        proof {
            assert(chunk.spec_types().len() == chunk.columns@.len());
            assert(self.child.schema.types().len() == self.child.schema.fields@.len());
            assert(chunk.columns@.len() == self.child.schema.fields@.len());
            assert(tuple.len() == cols.len());
            assert forall|j: int| 0 <= j < cols.len() implies #[trigger] tuple[j] == row[cols[
                j
            ] as int] && (self.group_key_types@[j] == DataType::Int32 ==> in_i32_range(
                tuple[j],
            )) by {
                lemma_group_cell(self, chunk, row_id as int, j);
            }
            if self.key_kind == KeyKind::Packed {
                lemma_group_cell(self, chunk, row_id as int, 0);
                lemma_group_cell(self, chunk, row_id as int, 1);
            }
            lemma_distinct_no_dup(processed0, cols);
        }

        let key = HashKey::build(self.key_kind, chunk, row_id, &self.group_key_columns);
        proof {
            assert(key_decode(key) == tuple);
        }

        // Look the key up in the group table.
        let len = self.groups.len();
        let mut g: usize = 0;
        let mut found: bool = false;
        let mut idx: usize = 0;
        while g < len
            invariant
                len == self.groups@.len(),
                g <= len,
                self.wf(),
                key_kind_of(key) == self.key_kind,
                key_decode(key) == tuple,
                !found ==> forall|k: int|
                    0 <= k < g ==> key_decode((#[trigger] self.groups@[k]).key) != tuple,
                found ==> idx < len && key_decode(self.groups@[idx as int].key) == tuple,
            decreases len - g,
        {
            if !found && self.groups[g].key.key_eq(&key) {
                found = true;
                idx = g;
            }
            g += 1;
        }

        proof {
            if found {
                assert(keys0[idx as int] == tuple);
                assert(keys0.contains(tuple));
            } else {
                assert(!keys0.contains(tuple)) by {
                    if keys0.contains(tuple) {
                        let i = choose|i: int| 0 <= i < keys0.len() && keys0[i] == tuple;
                        assert(key_decode(self.groups@[i].key) == tuple);
                    }
                }
                lemma_matching_of_unseen(processed0, cols, tuple);
            }
        }

        // Lazily create the group on first sight of its key.
        let ghost groups0 = self.groups@;
        let nagg = self.agg_factories.len();
        if !found {
            let mut states: Vec<AggState> = Vec::new();
            let mut a: usize = 0;
            while a < nagg
                invariant
                    nagg == self.agg_factories@.len(),
                    a <= nagg,
                    states@.len() == a,
                    forall|k: int|
                        0 <= k < a ==> (#[trigger] states@[k]).call == self.agg_factories@[
                            k
                        ].call && states@[k].acc == 0,
                decreases nagg - a,
            {
                states.push(self.agg_factories[a].create_agg_state());
                a += 1;
            }
            idx = self.groups.len();
            self.groups.push(GroupEntry { key, states });
        }
        let ghost groups1 = self.groups@;

        proof {
            assert(idx < groups1.len());
            assert(key_decode(groups1[idx as int].key) == tuple);
            assert(groups1[idx as int].states@.len() == nagg);
            if found {
                assert(groups1 == groups0);
            } else {
                assert(groups1.drop_last() =~= groups0);
                assert(forall|k: int|
                    0 <= k < groups0.len() ==> groups1[k] == groups0[k]);
            }
        }
        // The group's rows so far, and its accumulators.
        let ghost matching0 = matching_rows(processed0, cols, tuple);
        proof {
            if found {
                assert(forall|a: int|
                    0 <= a < nagg ==> (#[trigger] groups1[idx as int].states@[a]).acc
                        == agg_over(
                        self.agg_factories@[a].call.kind,
                        self.agg_factories@[a].call.arg as int,
                        matching0,
                    ));
            } else {
                assert(matching0 =~= Seq::<Seq<i64>>::empty());
                assert(forall|a: int|
                    0 <= a < nagg ==> (#[trigger] groups1[idx as int].states@[a]).acc
                        == agg_over(
                        self.agg_factories@[a].call.kind,
                        self.agg_factories@[a].call.arg as int,
                        matching0,
                    ));
            }
        }

        // Probe every accumulator before touching any: the row is folded in
        // atomically or not at all.
        let mut new_accs: Vec<i64> = Vec::new();
        let mut ok: bool = true;
        let ghost mut bad_a: int = 0;
        let mut a: usize = 0;
        while a < nagg
            invariant
                nagg == self.agg_factories@.len(),
                a <= nagg,
                idx < self.groups@.len(),
                self.groups@ == groups1,
                chunk.wf(),
                row_id < chunk.cardinality,
                row == chunk.spec_rows()[row_id as int],
                forall|k: int|
                    0 <= k < nagg ==> (#[trigger] self.agg_factories@[k]).call.arg
                        < chunk.columns@.len(),
                self.groups@[idx as int].states@.len() == nagg,
                forall|k: int|
                    0 <= k < nagg ==> (#[trigger] self.groups@[idx as int].states@[k]).call
                        == self.agg_factories@[k].call,
                ok ==> new_accs@.len() == a,
                ok ==> forall|k: int|
                    0 <= k < a ==> #[trigger] new_accs@[k] == agg_step(
                        self.agg_factories@[k].call.kind,
                        self.groups@[idx as int].states@[k].acc as int,
                        row,
                        self.agg_factories@[k].call.arg as int,
                    ),
                !ok ==> 0 <= bad_a < nagg && !(i64::MIN <= agg_step(
                    self.agg_factories@[bad_a].call.kind,
                    self.groups@[idx as int].states@[bad_a].acc as int,
                    row,
                    self.agg_factories@[bad_a].call.arg as int,
                ) <= i64::MAX),
            decreases nagg - a,
        {
            if ok {
                match self.groups[idx].states[a].next_acc(chunk, row_id) {
                    Some(v) => {
                        new_accs.push(v);
                    },
                    None => {
                        ok = false;
                        proof {
                            bad_a = a as int;
                        }
                    },
                }
            }
            a += 1;
        }

        proof {
            lemma_distinct_push(processed0, cols, row);
            lemma_matching_push(processed0, cols, tuple, row);
        }
        let ghost processed1 = processed0.push(row);
        let ghost keys1 = distinct_keys(processed1, cols);
        let ghost matching1 = matching_rows(processed1, cols, tuple);
        let ghost gidx: int = if found {
            idx as int
        } else {
            keys0.len() as int
        };

        proof {
            assert(matching1 == matching0.push(row));
            assert(0 <= gidx < keys1.len() && keys1[gidx] == tuple);
            assert(matching1.drop_last() =~= matching0);
            assert(forall|a: int|
                0 <= a < nagg ==> agg_over(
                    (#[trigger] self.agg_factories@[a]).call.kind,
                    self.agg_factories@[a].call.arg as int,
                    matching1,
                ) == agg_step(
                    self.agg_factories@[a].call.kind,
                    groups1[idx as int].states@[a].acc as int,
                    row,
                    self.agg_factories@[a].call.arg as int,
                ));
        }

        if !ok {
            if !found {
                let _popped = self.groups.pop();
                proof {
                    assert(self.groups@ =~= groups0);
                }
            }
            proof {
                // The failing accumulator shows the whole pass fails on
                // this row.
                assert(calls[bad_a] == self.agg_factories@[bad_a].call);
                assert(!agg_prefix_in_range(calls[bad_a].kind, calls[bad_a].arg as int, matching1));
                assert(!updates_ok(processed1, cols, calls)) by {
                    if updates_ok(processed1, cols, calls) {
                        assert(agg_prefix_in_range(
                            calls[bad_a].kind,
                            calls[bad_a].arg as int,
                            matching_rows(processed1, cols, distinct_keys(processed1, cols)[gidx]),
                        ));
                    }
                }
            }
            return Err(ErrorCode::NumericOverflow);
        }

        // Commit the probed values.
        let mut a: usize = 0;
        while a < nagg
            invariant
                nagg == self.agg_factories@.len(),
                a <= nagg,
                idx < self.groups@.len(),
                new_accs@.len() == nagg,
                self.groups@.len() == groups1.len(),
                forall|k: int|
                    0 <= k < groups1.len() && k != idx ==> #[trigger] self.groups@[k] == groups1[
                        k
                    ],
                self.groups@[idx as int].key == groups1[idx as int].key,
                self.groups@[idx as int].states@.len() == nagg,
                forall|k: int|
                    0 <= k < a ==> (#[trigger] self.groups@[idx as int].states@[k]).call
                        == groups1[idx as int].states@[k].call && self.groups@[
                        idx as int
                    ].states@[k].acc == new_accs@[k],
                forall|k: int|
                    a <= k < nagg ==> #[trigger] self.groups@[idx as int].states@[k] == groups1[
                        idx as int
                    ].states@[k],
                self.agg_factories == old(self).agg_factories,
                self.group_key_columns == old(self).group_key_columns,
                self.child == old(self).child,
                self.done == old(self).done,
                self.group_key_types == old(self).group_key_types,
                self.schema == old(self).schema,
                self.key_kind == old(self).key_kind,
                self.processed@ == processed0,
                new_accs@.len() == nagg,
            decreases nagg - a,
        {
            let call = self.groups[idx].states[a].call;
            let v = new_accs[a];
            self.groups[idx].states[a] = AggState { call, acc: v };
            a += 1;
        }

        self.processed = Ghost(processed1);

        proof {
            // Re-establish the invariant over the extended row sequence.
            if found {
                assert(keys1 == keys0);
            } else {
                assert(keys1 == keys0.push(tuple));
                assert(forall|k: int| 0 <= k < keys0.len() ==> #[trigger] keys1[k] == keys0[k]);
            }
            assert(self.keys() == keys1);
            // Rows of other groups are untouched by this row.
            assert forall|gg: int| 0 <= gg < keys1.len() && gg != gidx implies matching_rows(
                processed1,
                cols,
                #[trigger] keys1[gg],
            ) == matching_rows(processed0, cols, keys1[gg]) by {
                lemma_matching_push(processed0, cols, keys1[gg], row);
                if found {
                    assert(keys1[gg] == keys0[gg]);
                    assert(keys0[gg] != tuple);
                } else {
                    assert(keys1[gg] == keys0[gg]);
                    if keys0[gg] == tuple {
                        assert(keys0.contains(tuple));
                    }
                }
            }
            // Widths and ranges of the (possibly extended) key list.
            assert forall|gg: int, j: int|
                0 <= gg < keys1.len() && 0 <= j < cols.len() && self.group_key_types@[j]
                    == DataType::Int32 implies in_i32_range(#[trigger] keys1[gg][j]) by {
                if gg == gidx && !found {
                    assert(keys1[gg] == tuple);
                } else {
                    assert(keys1[gg] == keys0[gg]);
                }
            }
            assert forall|gg: int| 0 <= gg < keys1.len() implies (#[trigger] keys1[gg]).len()
                == cols.len() by {
                if !(gg == gidx && !found) {
                    assert(keys1[gg] == keys0[gg]);
                }
            }
            // The whole pass stays representable.
            assert forall|gg: int, aa: int|
                0 <= gg < keys1.len() && 0 <= aa < calls.len() implies agg_prefix_in_range(
                (#[trigger] calls[aa]).kind,
                calls[aa].arg as int,
                matching_rows(processed1, cols, #[trigger] keys1[gg]),
            ) by {
                assert(calls[aa] == self.agg_factories@[aa].call);
                if gg == gidx {
                    assert(matching_rows(processed1, cols, keys1[gg]) == matching1);
                    assert(agg_over(calls[aa].kind, calls[aa].arg as int, matching1)
                        == new_accs@[aa]);
                    assert(agg_prefix_in_range(calls[aa].kind, calls[aa].arg as int, matching0));
                } else {
                    assert(matching_rows(processed1, cols, keys1[gg]) == matching_rows(
                        processed0,
                        cols,
                        keys1[gg],
                    ));
                    if found {
                        assert(keys1[gg] == keys0[gg]);
                    } else {
                        assert(keys1[gg] == keys0[gg]);
                    }
                }
            }
            assert(self.wf());
        }
        Ok(())
    }

    /// Fold one batch of child rows into the group table, row by row, in
    /// row order. An overflow in any row aborts the pass.
    pub fn consume_chunk(&mut self, chunk: &DataChunk) -> (r: Result<(), ErrorCode>)
        requires
            old(self).wf(),
            chunk.wf(),
            chunk.spec_types() == old(self).child.schema.types(),
        ensures
            final(self).wf(),
            final(self).agg_factories == old(self).agg_factories,
            final(self).group_key_columns == old(self).group_key_columns,
            final(self).child == old(self).child,
            final(self).done == old(self).done,
            final(self).group_key_types == old(self).group_key_types,
            final(self).schema == old(self).schema,
            final(self).key_kind == old(self).key_kind,
            r is Ok <==> updates_ok(
                old(self).processed@ + chunk.spec_rows(),
                old(self).group_key_columns@,
                old(self).calls(),
            ),
            match r {
                Ok(()) => final(self).processed@ == old(self).processed@ + chunk.spec_rows(),
                Err(e) => e == ErrorCode::NumericOverflow,
            },
    {
        let ghost cols = self.group_key_columns@;
        let ghost calls = self.calls();
        let card = chunk.cardinality();
        let mut row_id: usize = 0;
        while row_id < card
            invariant
                self.wf(),
                chunk.wf(),
                chunk.spec_types() == self.child.schema.types(),
                card == chunk.cardinality,
                row_id <= card,
                cols == self.group_key_columns@,
                calls == self.calls(),
                self.agg_factories == old(self).agg_factories,
                self.group_key_columns == old(self).group_key_columns,
                self.child == old(self).child,
                self.done == old(self).done,
                self.group_key_types == old(self).group_key_types,
                self.schema == old(self).schema,
                self.key_kind == old(self).key_kind,
                self.processed@ == old(self).processed@ + chunk.spec_rows().take(row_id as int),
            decreases card - row_id,
        {
            let ghost before = self.processed@;
            let ghost row = chunk.spec_rows()[row_id as int];
            match self.consume_row(chunk, row_id) {
                Ok(()) => {
                    proof {
                        assert(before.push(row) =~= old(self).processed@ + chunk.spec_rows().take(
                            row_id as int + 1,
                        ));
                    }
                },
                Err(e) => {
                    proof {
                        lemma_updates_ok_monotone(
                            before.push(row),
                            cols,
                            calls,
                            chunk.spec_rows().skip(row_id as int + 1),
                        );
                        assert(before.push(row) + chunk.spec_rows().skip(row_id as int + 1)
                            =~= old(self).processed@ + chunk.spec_rows());
                    }
                    return Err(e);
                },
            }
            row_id += 1;
        }
        proof {
            assert(chunk.spec_rows().take(card as int) =~= chunk.spec_rows());
            // A finished pass over these rows is itself the witness that
            // every accumulator stayed representable.
            assert(updates_ok(
                old(self).processed@ + chunk.spec_rows(),
                cols,
                calls,
            ));
        }
        Ok(())
    }
}

impl HashAggExecutor {
    /// Prepare the operator; the materialized child needs no preparation.
    pub fn init(&mut self) -> (r: Result<(), ErrorCode>)
        ensures
            *final(self) == *old(self),
            r is Ok,
    {
        Ok(())
    }

    /// Release the operator's resources; nothing outlives the value itself.
    pub fn clean(&mut self) -> (r: Result<(), ErrorCode>)
        ensures
            *final(self) == *old(self),
            r is Ok,
    {
        Ok(())
    }

    /// The operator's output schema, usable for result encoding.
    pub fn schema(&self) -> (r: &Schema)
        ensures
            *r == self.schema,
    {
        &self.schema
    }

    /// Produce the operator's one result batch, or report completion.
    ///
    /// The single pass pulls every batch from the child and folds each row
    /// into the group table; once the child is exhausted, the complete
    /// table is emitted as one batch — grouping columns first, in declared
    /// order, then one aggregate result per call — and the operator is
    /// terminal: every later call reports completion and nothing is ever
    /// re-emitted. No partial result escapes: an overflow aborts the whole
    /// aggregation with an error and the terminal emission never happens.
    #[verifier::rlimit(100)]
    pub fn execute(&mut self) -> (r: Result<ExecutorResult, ErrorCode>)
        requires
            old(self).wf(),
        ensures
            final(self).wf(),
            final(self).schema == old(self).schema,
            old(self).done ==> (r matches Ok(ExecutorResult::Done) && *final(self) == *old(self)),
            !old(self).done ==> match r {
                Ok(ExecutorResult::Batch(chunk)) => {
                    &&& updates_ok(
                        old(self).processed@ + old(self).child.remaining(),
                        old(self).group_key_columns@,
                        old(self).calls(),
                    )
                    &&& final(self).done
                    &&& chunk.wf()
                    &&& chunk.spec_types() == old(self).schema.types()
                    &&& chunk.spec_rows() == agg_result_rows(
                        old(self).processed@ + old(self).child.remaining(),
                        old(self).group_key_columns@,
                        old(self).calls(),
                    )
                },
                Ok(ExecutorResult::Done) => false,
                Err(e) => {
                    &&& e == ErrorCode::NumericOverflow
                    &&& !updates_ok(
                        old(self).processed@ + old(self).child.remaining(),
                        old(self).group_key_columns@,
                        old(self).calls(),
                    )
                    &&& !final(self).done
                },
            },
    {
        if self.done {
            return Ok(ExecutorResult::Done);
        }
        let ghost cols = self.group_key_columns@;
        let ghost calls = self.calls();
        let ghost total0 = self.processed@ + self.child.remaining();

        // Single consumption pass: drain the child batch by batch.
        loop
            invariant
                self.wf(),
                !self.done,
                cols == self.group_key_columns@,
                calls == self.calls(),
                self.agg_factories == old(self).agg_factories,
                self.group_key_columns == old(self).group_key_columns,
                self.done == old(self).done,
                self.group_key_types == old(self).group_key_types,
                self.schema == old(self).schema,
                self.key_kind == old(self).key_kind,
                self.child.schema == old(self).child.schema,
                self.processed@ + self.child.remaining() == total0,
                total0 == old(self).processed@ + old(self).child.remaining(),
            ensures
                self.wf(),
                !self.done,
                cols == self.group_key_columns@,
                calls == self.calls(),
                self.agg_factories == old(self).agg_factories,
                self.group_key_columns == old(self).group_key_columns,
                self.done == old(self).done,
                self.group_key_types == old(self).group_key_types,
                self.schema == old(self).schema,
                self.key_kind == old(self).key_kind,
                self.child.schema == old(self).child.schema,
                self.processed@ == total0,
                self.child.chunks@.len() == 0,
            decreases self.child.chunks@.len(),
        {
            let ghost before = self.processed@;
            let chunk = match self.child.next_chunk() {
                Some(c) => c,
                None => {
                    proof {
                        assert(self.processed@ + self.child.remaining() =~= self.processed@);
                    }
                    break ;
                },
            };
            match self.consume_chunk(&chunk) {
                Ok(()) => {
                    proof {
                        assert((before + chunk.spec_rows()) + self.child.remaining() =~= before
                            + (chunk.spec_rows() + self.child.remaining()));
                    }
                },
                Err(e) => {
                    proof {
                        lemma_updates_ok_monotone(
                            before + chunk.spec_rows(),
                            cols,
                            calls,
                            self.child.remaining(),
                        );
                        assert((before + chunk.spec_rows()) + self.child.remaining() =~= before
                            + (chunk.spec_rows() + self.child.remaining()));
                        assert((before + chunk.spec_rows()) + self.child.remaining() == total0);
                        assert(!updates_ok(total0, cols, calls));
                        assert(total0 == old(self).processed@ + old(self).child.remaining());
                        assert(cols == old(self).group_key_columns@);
                        assert(self.agg_factories@ == old(self).agg_factories@);
                        assert(calls =~= old(self).calls());
                    }
                    return Err(e);
                },
            }
        }
        proof {
            assert(self.child.remaining() == Seq::<Seq<i64>>::empty());
            assert(self.processed@ + Seq::<Seq<i64>>::empty() =~= self.processed@);
            assert(self.processed@ == total0);
        }

        // Emission: walk the complete group table once and assemble the
        // one result batch.
        let card = self.groups.len();
        let ncols = self.group_key_columns.len();
        let nagg = self.agg_factories.len();
        let ghost keys = self.keys();
        let ghost expected = agg_result_rows(total0, cols, calls);

        let mut columns: Vec<Column> = Vec::new();

        if ncols == 0 && card == 0 {
            // No grouping columns and no input: the identity aggregates
            // still form one meaningful row.
            let mut a: usize = 0;
            while a < nagg
                invariant
                    nagg == self.agg_factories@.len(),
                    a <= nagg,
                    self.wf(),
                    columns@.len() == a,
                    forall|k: int| 0 <= k < a ==> (#[trigger] columns@[k]).data_type
                        == self.agg_factories@[k].call.return_type && columns@[k].values@ =~= seq![
                        0i64,
                    ] && columns@[k].wf(),
                decreases nagg - a,
            {
                let mut values: Vec<i64> = Vec::new();
                values.push(0);
                let col = match Column::new(self.agg_factories[a].get_return_type(), values) {
                    Ok(c) => c,
                    Err(_) => {
                        proof {
                            assert(false);
                        }
                        return Err(ErrorCode::InternalError);
                    },
                };
                columns.push(col);
                a += 1;
            }
            let chunk = DataChunk { columns, cardinality: 1 };
            self.done = true;
            proof {
                assert forall|k: int| 0 <= k < chunk.columns@.len() implies (
                #[trigger] chunk.columns@[k]).values@.len() == chunk.cardinality
                    && chunk.columns@[k].wf() by {}
                assert(chunk.wf());
                assert(total0.len() == 0);
                assert(chunk.cardinality == 1);
                assert forall|k: int| 0 <= k < chunk.columns@.len() implies chunk.spec_types()[k]
                    == self.schema.types()[k] by {
                    assert(chunk.spec_types()[k] == chunk.columns@[k].data_type);
                    assert(self.schema.types()[k] == self.schema.fields@[k].data_type);
                    assert(self.schema.fields@[self.group_key_columns@.len() + k].data_type
                        == self.agg_factories@[k].call.return_type);
                }
                assert(chunk.spec_types() =~= self.schema.types());
                assert(chunk.spec_rows() =~= expected) by {
                    assert(chunk.spec_rows().len() == 1);
                    assert(expected.len() == 1);
                    assert(chunk.spec_rows()[0] =~= expected[0]);
                }
            }
            return Ok(ExecutorResult::Batch(chunk));
        }

        proof {
            assert(!(cols.len() == 0 && total0.len() == 0)) by {
                if cols.len() == 0 && total0.len() == 0 {
                    assert(keys.len() == 0);
                    assert(card == 0);
                }
            }
            assert(expected.len() == keys.len());
        }

        // Grouping columns first, decoded back out of each group's key.
        let mut j: usize = 0;
        while j < ncols
            invariant
                ncols == self.group_key_columns@.len(),
                j <= ncols,
                card == self.groups@.len(),
                self.wf(),
                keys == self.keys(),
                columns@.len() == j,
                forall|k: int| 0 <= k < j ==> (#[trigger] columns@[k]).data_type
                    == self.group_key_types@[k] && columns@[k].values@.len() == card
                    && columns@[k].wf(),
                forall|k: int, g: int| 0 <= k < j && 0 <= g < card ==> (#[trigger] columns@[
                    k
                ].values@[g]) == keys[g][k],
            decreases ncols - j,
        {
            let mut values: Vec<i64> = Vec::new();
            let mut g: usize = 0;
            while g < card
                invariant
                    card == self.groups@.len(),
                    g <= card,
                    j < ncols,
                    ncols == self.group_key_columns@.len(),
                    self.wf(),
                    keys == self.keys(),
                    values@.len() == g,
                    forall|k: int| 0 <= k < g ==> #[trigger] values@[k] == keys[k][j as int],
                decreases card - g,
            {
                values.push(self.groups[g].key.decode_cell(j));
                g += 1;
            }
            proof {
                if self.group_key_types@[j as int] == DataType::Int32 {
                    assert forall|k: int| 0 <= k < values@.len() implies in_i32_range(
                        #[trigger] values@[k],
                    ) by {
                        assert(values@[k] == keys[k][j as int]);
                    }
                }
            }
            let col = match Column::new(self.group_key_types[j], values) {
                Ok(c) => c,
                Err(_) => {
                    proof {
                        assert(false);
                    }
                    return Err(ErrorCode::InternalError);
                },
            };
            columns.push(col);
            j += 1;
        }

        // Aggregate results after, one output scalar per call.
        let mut a: usize = 0;
        while a < nagg
            invariant
                nagg == self.agg_factories@.len(),
                ncols == self.group_key_columns@.len(),
                a <= nagg,
                card == self.groups@.len(),
                self.wf(),
                keys == self.keys(),
                columns@.len() == ncols + a,
                forall|k: int| 0 <= k < ncols ==> (#[trigger] columns@[k]).data_type
                    == self.group_key_types@[k] && columns@[k].values@.len() == card
                    && columns@[k].wf(),
                forall|k: int, g: int| 0 <= k < ncols && 0 <= g < card ==> (#[trigger] columns@[
                    k
                ].values@[g]) == keys[g][k],
                forall|k: int| 0 <= k < a ==> (#[trigger] columns@[ncols + k]).data_type
                    == self.agg_factories@[k].call.return_type && columns@[ncols
                    + k].values@.len() == card && columns@[ncols + k].wf(),
                forall|k: int, g: int| 0 <= k < a && 0 <= g < card ==> (#[trigger] columns@[ncols
                    + k].values@[g]) == self.groups@[g].states@[k].acc,
            decreases nagg - a,
        {
            let mut values: Vec<i64> = Vec::new();
            let mut g: usize = 0;
            while g < card
                invariant
                    card == self.groups@.len(),
                    g <= card,
                    a < nagg,
                    nagg == self.agg_factories@.len(),
                    self.wf(),
                    values@.len() == g,
                    forall|k: int| 0 <= k < g ==> #[trigger] values@[k] == self.groups@[
                        k
                    ].states@[a as int].acc,
                decreases card - g,
            {
                values.push(self.groups[g].states[a].output());
                g += 1;
            }
            let col = match Column::new(self.agg_factories[a].get_return_type(), values) {
                Ok(c) => c,
                Err(_) => {
                    proof {
                        assert(false);
                    }
                    return Err(ErrorCode::InternalError);
                },
            };
            columns.push(col);
            a += 1;
        }

        let chunk = DataChunk { columns, cardinality: card };
        self.done = true;
        proof {
            assert forall|k: int| 0 <= k < chunk.columns@.len() implies (
            #[trigger] chunk.columns@[k]).values@.len() == chunk.cardinality && chunk.columns@[
                k
            ].wf() by {
                if k < ncols {
                } else {
                    assert(chunk.columns@[k] == chunk.columns@[ncols + (k - ncols)]);
                }
            }
            assert(chunk.wf());
        }
        proof {
            assert forall|k: int| 0 <= k < chunk.columns@.len() implies chunk.spec_types()[k]
                == self.schema.types()[k] by {
                assert(chunk.spec_types()[k] == chunk.columns@[k].data_type);
                assert(self.schema.types()[k] == self.schema.fields@[k].data_type);
                if k < ncols {
                } else {
                    assert(chunk.columns@[ncols + (k - ncols)].data_type == self.agg_factories@[
                        k - ncols
                    ].call.return_type);
                    assert(self.schema.fields@[self.group_key_columns@.len() + (k
                        - ncols)].data_type == self.agg_factories@[k - ncols].call.return_type);
                }
            }
            assert(chunk.spec_types() =~= self.schema.types());
            assert(chunk.spec_rows() =~= expected) by {
                assert(chunk.spec_rows().len() == expected.len());
                assert forall|g: int| 0 <= g < expected.len() implies chunk.spec_rows()[g]
                    =~= expected[g] by {
                    assert(expected[g] == keys[g] + Seq::new(
                        calls.len(),
                        |aa: int| agg_over(
                            calls[aa].kind,
                            calls[aa].arg as int,
                            matching_rows(total0, cols, keys[g]),
                        ) as i64,
                    ));
                    assert forall|c: int| 0 <= c < ncols + nagg implies chunk.spec_rows()[g][c]
                        == expected[g][c] by {
                        if c < ncols {
                            assert(chunk.spec_rows()[g][c] == chunk.columns@[c].values@[g]);
                            assert(chunk.columns@[c].values@[g] == keys[g][c]);
                        } else {
                            assert(chunk.spec_rows()[g][c] == chunk.columns@[c].values@[g]);
                            assert(chunk.columns@[ncols + (c - ncols)].values@[g] == self.groups@[
                                g
                            ].states@[c - ncols].acc);
                            assert(calls[c - ncols] == self.agg_factories@[c - ncols].call);
                        }
                    }
                }
            }
        }
        Ok(ExecutorResult::Batch(chunk))
    }
}

/// The configuration error the executor build reports, mirroring the
/// validation order: grouping columns are checked first, in declared order,
/// then aggregate calls; the first violation decides the code, and an
/// out-of-range index is reported together with the offending index and the
/// child's width. `None` where the whole description is valid.
pub open spec fn build_reject(keys: Seq<usize>, calls: Seq<AggCall>, width: usize) -> Option<
    ErrorCode,
>
    decreases keys.len(), calls.len(),
{
    if keys.len() > 0 {
        if keys[0] >= width {
            Some(ErrorCode::InvalidColumnIndex { index: keys[0], width })
        } else {
            build_reject(keys.drop_first(), calls, width)
        }
    } else if calls.len() > 0 {
        if calls[0].arg >= width {
            Some(ErrorCode::InvalidColumnIndex { index: calls[0].arg, width })
        } else if calls[0].return_type != agg_return_type(calls[0].kind) {
            Some(ErrorCode::MalformedAggSpec)
        } else {
            build_reject(keys, calls.drop_first(), width)
        }
    } else {
        None
    }
}

/// Builds a hash-aggregation executor from its plan-node description.
pub struct HashAggExecutorBuilder;

impl HashAggExecutorBuilder {
    /// Validate the description against the child's schema and assemble the
    /// operator. A grouping column or aggregate argument out of the child's
    /// width, or a malformed aggregate call, is a fatal configuration
    /// error, rejected here at build time.
    pub fn new_boxed_executor(node: &HashAggNode, child: MockExecutor) -> (r: Result<
        HashAggExecutor,
        ErrorCode,
    >)
        requires
            child.wf(),
        ensures
            r is Ok <==> ((forall|i: int| 0 <= i < node.group_keys@.len()
                ==> #[trigger] node.group_keys@[i] < child.schema.fields@.len()) && (forall|
                a: int,
            | 0 <= a < node.agg_calls@.len() ==> (#[trigger] node.agg_calls@[a]).arg
                < child.schema.fields@.len() && node.agg_calls@[a].return_type
                == agg_return_type(node.agg_calls@[a].kind))),
            match r {
                Ok(exec) => {
                    &&& exec.wf()
                    &&& !exec.done
                    &&& exec.processed@ == Seq::<Seq<i64>>::empty()
                    &&& exec.groups@.len() == 0
                    &&& exec.group_key_columns@ == node.group_keys@
                    &&& exec.calls() =~= node.agg_calls@
                    &&& exec.child == child
                },
                Err(e) => Some(e) == build_reject(
                    node.group_keys@,
                    node.agg_calls@,
                    child.schema.fields@.len() as usize,
                ),
            },
    {
        let width = child.schema.fields.len();
        let ghost keys = node.group_keys@;
        let ghost calls = node.agg_calls@;
        let nk = node.group_keys.len();
        let mut group_key_types: Vec<DataType> = Vec::new();
        let mut i: usize = 0;
        proof {
            assert(keys.skip(0) =~= keys);
        }
        while i < nk
            invariant
                nk == node.group_keys@.len(),
                keys == node.group_keys@,
                calls == node.agg_calls@,
                i <= nk,
                width == child.schema.fields@.len(),
                group_key_types@.len() == i,
                forall|k: int| 0 <= k < i ==> #[trigger] node.group_keys@[k] < width,
                forall|k: int| 0 <= k < i ==> #[trigger] group_key_types@[k]
                    == child.schema.fields@[node.group_keys@[k] as int].data_type,
                build_reject(keys.skip(i as int), calls, width) == build_reject(
                    keys,
                    calls,
                    width,
                ),
            decreases nk - i,
        {
            let c = node.group_keys[i];
            proof {
                assert(keys.skip(i as int)[0] == keys[i as int]);
            }
            if c >= width {
                proof {
                    assert(build_reject(keys, calls, width) == Some(
                        ErrorCode::InvalidColumnIndex { index: c, width },
                    ));
                }
                return Err(ErrorCode::InvalidColumnIndex { index: c, width });
            }
            group_key_types.push(child.schema.fields[c].data_type);
            i += 1;
            proof {
                assert(keys.skip(i - 1).drop_first() =~= keys.skip(i as int));
            }
        }
        proof {
            assert(keys.skip(nk as int) =~= Seq::<usize>::empty());
        }

        let na = node.agg_calls.len();
        let mut agg_factories: Vec<AggStateFactory> = Vec::new();
        let mut a: usize = 0;
        proof {
            assert(calls.skip(0) =~= calls);
        }
        while a < na
            invariant
                na == node.agg_calls@.len(),
                keys == node.group_keys@,
                calls == node.agg_calls@,
                a <= na,
                width == child.schema.fields@.len(),
                agg_factories@.len() == a,
                forall|k: int| 0 <= k < a ==> (#[trigger] node.agg_calls@[k]).arg < width
                    && node.agg_calls@[k].return_type == agg_return_type(
                    node.agg_calls@[k].kind,
                ),
                forall|k: int| 0 <= k < a ==> (#[trigger] agg_factories@[k]).call
                    == node.agg_calls@[k],
                build_reject(Seq::<usize>::empty(), calls.skip(a as int), width) == build_reject(
                    keys,
                    calls,
                    width,
                ),
            decreases na - a,
        {
            let call = node.agg_calls[a];
            proof {
                assert(calls.skip(a as int)[0] == calls[a as int]);
            }
            if call.arg >= width {
                proof {
                    assert(build_reject(keys, calls, width) == Some(
                        ErrorCode::InvalidColumnIndex { index: call.arg, width },
                    ));
                }
                return Err(ErrorCode::InvalidColumnIndex { index: call.arg, width });
            }
            let factory = match AggStateFactory::new(&call) {
                Ok(f) => f,
                Err(e) => {
                    proof {
                        assert(build_reject(keys, calls, width) == Some(
                            ErrorCode::MalformedAggSpec,
                        ));
                    }
                    return Err(e);
                },
            };
            agg_factories.push(factory);
            a += 1;
            proof {
                assert(calls.skip(a - 1).drop_first() =~= calls.skip(a as int));
            }
        }

        // Pick the key strategy from the grouping column types: a packed
        // word for exactly two 32-bit columns, the serialized form
        // otherwise.
        let key_kind = if group_key_types.len() == 2 && matches!(
            group_key_types[0],
            DataType::Int32,
        ) && matches!(group_key_types[1], DataType::Int32) {
            KeyKind::Packed
        } else {
            KeyKind::Serialized
        };

        // The output schema: grouping columns first, aggregate results
        // after, in declared order.
        let mut fields: Vec<Field> = Vec::new();
        let mut i: usize = 0;
        while i < nk
            invariant
                nk == node.group_keys@.len(),
                nk == group_key_types@.len(),
                i <= nk,
                fields@.len() == i,
                forall|k: int| 0 <= k < i ==> (#[trigger] fields@[k]).data_type
                    == group_key_types@[k],
            decreases nk - i,
        {
            fields.push(Field::unnamed(group_key_types[i]));
            i += 1;
        }
        let mut a: usize = 0;
        while a < na
            invariant
                na == agg_factories@.len(),
                nk == group_key_types@.len(),
                a <= na,
                fields@.len() == nk + a,
                forall|k: int| 0 <= k < nk ==> (#[trigger] fields@[k]).data_type
                    == group_key_types@[k],
                forall|k: int| 0 <= k < a ==> (#[trigger] fields@[nk + k]).data_type
                    == agg_factories@[k].call.return_type,
            decreases na - a,
        {
            fields.push(Field::unnamed(agg_factories[a].get_return_type()));
            a += 1;
        }
        let schema = Schema::new(fields);

        let exec = HashAggExecutor {
            agg_factories,
            group_key_columns: node.group_keys.clone(),
            child,
            groups: Vec::new(),
            done: false,
            group_key_types,
            schema,
            key_kind,
            processed: Ghost(Seq::empty()),
        };
        proof {
            assert(exec.group_key_columns@ =~= node.group_keys@);
            assert(exec.keys() =~= Seq::<Seq<i64>>::empty());
            assert(exec.calls() =~= node.agg_calls@);
        }
        Ok(exec)
    }
}

} // verus!
