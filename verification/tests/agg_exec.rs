use querycore::agg::{AggCall, AggKind};
use querycore::catalog::{DataType, Field, Schema};
use querycore::chunk::{Column, DataChunk};
use querycore::error::ErrorCode;
use querycore::hash_agg::{
    ExecutorResult, HashAggExecutorBuilder, HashAggNode, MockExecutor,
};
use querycore::hash_key::KeyKind;

fn int32_schema(n: usize) -> Schema {
    let mut fields = Vec::new();
    for _ in 0..n {
        fields.push(Field::unnamed(DataType::Int32));
    }
    Schema::new(fields)
}

fn chunk_of(cols: Vec<(DataType, Vec<i64>)>) -> DataChunk {
    let mut columns = Vec::new();
    for (t, v) in cols {
        columns.push(Column::new(t, v).unwrap());
    }
    DataChunk::new(columns).unwrap()
}

fn batch_of(r: Result<ExecutorResult, ErrorCode>) -> DataChunk {
    match r.unwrap() {
        ExecutorResult::Batch(c) => c,
        ExecutorResult::Done => panic!("expected a batch"),
    }
}

#[test]
fn execute_int32_grouped() {
    let chunk = chunk_of(vec![
        (DataType::Int32, vec![0, 1, 0, 1, 1, 0, 1, 0]),
        (DataType::Int32, vec![1, 1, 0, 1, 0, 0, 1, 1]),
        (DataType::Int32, vec![1, 1, 1, 2, 1, 2, 3, 2]),
    ]);
    let child = MockExecutor::with_chunk(chunk, int32_schema(3)).unwrap();
    let node = HashAggNode {
        group_keys: vec![0, 1],
        agg_calls: vec![AggCall { kind: AggKind::Sum, arg: 2, return_type: DataType::Int64 }],
    };
    let mut exec = HashAggExecutorBuilder::new_boxed_executor(&node, child).unwrap();
    assert_eq!(exec.key_kind, KeyKind::Packed);
    exec.init().unwrap();
    let out = batch_of(exec.execute());
    assert_eq!(out.cardinality(), 4);
    assert_eq!(out.column_count(), 3);
    // Collect the emitted groups; the output row order is unspecified.
    let mut groups = Vec::new();
    for g in 0..4 {
        groups.push((out.value_at(g, 0), out.value_at(g, 1), out.value_at(g, 2)));
    }
    assert!(groups.contains(&(0, 1, 3)));
    assert!(groups.contains(&(1, 1, 6)));
    assert!(groups.contains(&(0, 0, 3)));
    assert!(groups.contains(&(1, 0, 1)));
    exec.clean().unwrap();
}

#[test]
fn emission_is_terminal() {
    let chunk = chunk_of(vec![(DataType::Int32, vec![7, 7, 8])]);
    let child = MockExecutor::with_chunk(chunk, int32_schema(1)).unwrap();
    let node = HashAggNode {
        group_keys: vec![0],
        agg_calls: vec![AggCall { kind: AggKind::Count, arg: 0, return_type: DataType::Int64 }],
    };
    let mut exec = HashAggExecutorBuilder::new_boxed_executor(&node, child).unwrap();
    let out = batch_of(exec.execute());
    assert_eq!(out.cardinality(), 2);
    // After the one emission the operator reports completion forever.
    assert!(matches!(exec.execute(), Ok(ExecutorResult::Done)));
    assert!(matches!(exec.execute(), Ok(ExecutorResult::Done)));
    assert!(matches!(exec.execute(), Ok(ExecutorResult::Done)));
}

#[test]
fn serialized_keys_across_batches() {
    // Three grouping columns force the serialized key strategy; rows of one
    // group arrive in different batches.
    let c1 = chunk_of(vec![
        (DataType::Int32, vec![1, 2]),
        (DataType::Int32, vec![1, 2]),
        (DataType::Int32, vec![1, 2]),
        (DataType::Int64, vec![10, 20]),
    ]);
    let c2 = chunk_of(vec![
        (DataType::Int32, vec![1]),
        (DataType::Int32, vec![1]),
        (DataType::Int32, vec![1]),
        (DataType::Int64, vec![5]),
    ]);
    let mut fields = Vec::new();
    for _ in 0..3 {
        fields.push(Field::unnamed(DataType::Int32));
    }
    fields.push(Field::unnamed(DataType::Int64));
    let schema = Schema::new(fields);
    let child = MockExecutor::with_chunks(vec![c1, c2], schema).unwrap();
    let node = HashAggNode {
        group_keys: vec![0, 1, 2],
        agg_calls: vec![AggCall { kind: AggKind::Sum, arg: 3, return_type: DataType::Int64 }],
    };
    let mut exec = HashAggExecutorBuilder::new_boxed_executor(&node, child).unwrap();
    assert_eq!(exec.key_kind, KeyKind::Serialized);
    let out = batch_of(exec.execute());
    assert_eq!(out.cardinality(), 2);
    let mut groups = Vec::new();
    for g in 0..2 {
        groups.push((out.value_at(g, 0), out.value_at(g, 3)));
    }
    assert!(groups.contains(&(1, 15)));
    assert!(groups.contains(&(2, 20)));
}

#[test]
fn empty_input_with_group_columns_yields_no_rows() {
    let chunk = chunk_of(vec![(DataType::Int32, vec![])]);
    let child = MockExecutor::with_chunk(chunk, int32_schema(1)).unwrap();
    let node = HashAggNode {
        group_keys: vec![0],
        agg_calls: vec![AggCall { kind: AggKind::Count, arg: 0, return_type: DataType::Int64 }],
    };
    let mut exec = HashAggExecutorBuilder::new_boxed_executor(&node, child).unwrap();
    let out = batch_of(exec.execute());
    assert_eq!(out.cardinality(), 0);
}

#[test]
fn empty_input_without_group_columns_yields_identity_row() {
    let chunk = chunk_of(vec![(DataType::Int32, vec![])]);
    let child = MockExecutor::with_chunk(chunk, int32_schema(1)).unwrap();
    let node = HashAggNode {
        group_keys: vec![],
        agg_calls: vec![AggCall { kind: AggKind::Count, arg: 0, return_type: DataType::Int64 }],
    };
    let mut exec = HashAggExecutorBuilder::new_boxed_executor(&node, child).unwrap();
    let out = batch_of(exec.execute());
    assert_eq!(out.cardinality(), 1);
    assert_eq!(out.value_at(0, 0), 0);
}

#[test]
fn sum_overflow_aborts_whole_aggregation() {
    let chunk = chunk_of(vec![(DataType::Int64, vec![i64::MAX, 1])]);
    let mut fields = Vec::new();
    fields.push(Field::unnamed(DataType::Int64));
    let child = MockExecutor::with_chunk(chunk, Schema::new(fields)).unwrap();
    let node = HashAggNode {
        group_keys: vec![],
        agg_calls: vec![AggCall { kind: AggKind::Sum, arg: 0, return_type: DataType::Int64 }],
    };
    let mut exec = HashAggExecutorBuilder::new_boxed_executor(&node, child).unwrap();
    assert!(matches!(exec.execute(), Err(ErrorCode::NumericOverflow)));
}

#[test]
fn out_of_range_group_key_is_rejected_at_build_time() {
    let chunk = chunk_of(vec![(DataType::Int32, vec![1])]);
    let child = MockExecutor::with_chunk(chunk, int32_schema(1)).unwrap();
    let node = HashAggNode {
        group_keys: vec![5],
        agg_calls: vec![],
    };
    let r = HashAggExecutorBuilder::new_boxed_executor(&node, child);
    assert!(matches!(r, Err(ErrorCode::InvalidColumnIndex { index: 5, width: 1 })));
}

#[test]
fn malformed_agg_call_is_rejected_at_build_time() {
    let chunk = chunk_of(vec![(DataType::Int32, vec![1])]);
    let child = MockExecutor::with_chunk(chunk, int32_schema(1)).unwrap();
    let node = HashAggNode {
        group_keys: vec![0],
        agg_calls: vec![AggCall { kind: AggKind::Sum, arg: 0, return_type: DataType::Int32 }],
    };
    let r = HashAggExecutorBuilder::new_boxed_executor(&node, child);
    assert!(matches!(r, Err(ErrorCode::MalformedAggSpec)));
}

#[test]
fn int32_column_rejects_out_of_range_value() {
    let r = Column::new(DataType::Int32, vec![1 << 40]);
    assert!(matches!(r, Err(ErrorCode::ValueOutOfRange)));
}

#[test]
fn batch_rejects_columns_of_unequal_length() {
    let a = Column::new(DataType::Int32, vec![1, 2]).unwrap();
    let b = Column::new(DataType::Int32, vec![1]).unwrap();
    let r = DataChunk::new(vec![a, b]);
    assert!(matches!(r, Err(ErrorCode::ColumnLengthMismatch)));
}

#[test]
fn child_batches_must_match_declared_schema() {
    let chunk = chunk_of(vec![(DataType::Int64, vec![1])]);
    let r = MockExecutor::with_chunk(chunk, int32_schema(1));
    assert!(matches!(r, Err(ErrorCode::SchemaMismatch)));
}
