use std::rc::Rc;
use querycore::catalog::{DataType, Field, Schema, Table, list_materialized_views, rw_materialized_view_schema, Scalar};
use querycore::binder::{BoundSelect, BoundSetExpr, BoundValues};
use querycore::error::ErrorCode;
use querycore::expr::{ColIndexMapping, Condition, InputRef, Predicate};
use querycore::physical::{to_batch, to_stream, logical_rewrite_for_stream, BatchPlan, StreamPlan};
use querycore::plan_node::{
    plan_inputs_get, plan_inputs_len, JoinType, LogicalGenerateSeries, LogicalJoin,
    LogicalMultiJoin, LogicalScan, OptimizerContext, PlanBase, PlanNode, PlanRef,
};
use querycore::pruning::{bitset_insert, bitset_with_capacity, prune_col};

fn ctx() -> Rc<OptimizerContext> {
    Rc::new(OptimizerContext { session_id: 1 })
}

fn int32_fields(n: usize) -> Vec<Field> {
    let mut fields = Vec::new();
    for _ in 0..n {
        fields.push(Field::unnamed(DataType::Int32));
    }
    fields
}

fn scan(table_id: usize, width: usize) -> PlanRef {
    let mut cols = Vec::new();
    for i in 0..width {
        cols.push(i);
    }
    Rc::new(PlanNode::Scan(LogicalScan {
        base: PlanBase::new_logical(ctx(), Schema::new(int32_fields(width))),
        table_id,
        output_cols: cols,
    }))
}

fn inner_join(left: PlanRef, right: PlanRef, on: Vec<Predicate>) -> PlanRef {
    let mut fields = Vec::new();
    for f in left.schema().fields.iter() {
        fields.push(f.clone());
    }
    for f in right.schema().fields.iter() {
        fields.push(f.clone());
    }
    Rc::new(PlanNode::Join(LogicalJoin {
        base: PlanBase::new_logical(ctx(), Schema::new(fields)),
        left,
        right,
        join_type: JoinType::Inner,
        on: Condition { conjunctions: on },
    }))
}

fn eq(a: usize, b: usize) -> Predicate {
    Predicate::EqCols(InputRef { index: a }, InputRef { index: b })
}

fn table_id_of(p: &PlanRef) -> usize {
    p.as_logical_scan().unwrap().table_id
}

#[test]
fn three_relation_chain_flattens_to_one_multi_join() {
    // A(1 col) join B(1 col) on A.0 = B.0, then join C(1 col) on B.0 = C.0.
    let a = scan(1, 1);
    let b = scan(2, 1);
    let c = scan(3, 1);
    let ab = inner_join(a, b, vec![eq(0, 1)]);
    let ab_mj = LogicalMultiJoin::from_join(&ab).unwrap();
    let left = Rc::new(PlanNode::MultiJoin(ab_mj));
    let outer = inner_join(left, c, vec![eq(1, 2)]);
    let mj = LogicalMultiJoin::from_join(&outer).unwrap();

    assert_eq!(mj.input_count(), 3);
    assert_eq!(table_id_of(mj.input_at(0)), 1);
    assert_eq!(table_id_of(mj.input_at(1)), 2);
    assert_eq!(table_id_of(mj.input_at(2)), 3);
    // The flat condition is the outer predicate followed by the spliced
    // one, all in the concatenated numbering of A, B, C.
    assert_eq!(mj.on().conjunctions, vec![eq(1, 2), eq(0, 1)]);
}

#[test]
fn raw_inner_join_side_is_spliced() {
    // (A ⋈ B) ⋈ C with no prior conversion: the left side is itself a raw
    // binary inner join, so its two children are spliced into the operand
    // list and its predicate merges into the flat condition.
    let a = scan(1, 1);
    let b = scan(2, 1);
    let c = scan(3, 1);
    let ab = inner_join(a, b, vec![eq(0, 1)]);
    let chain = inner_join(ab, c, vec![eq(1, 2)]);
    let mj = LogicalMultiJoin::from_join(&chain).unwrap();
    assert_eq!(mj.input_count(), 3);
    assert_eq!(table_id_of(mj.input_at(0)), 1);
    assert_eq!(table_id_of(mj.input_at(1)), 2);
    assert_eq!(table_id_of(mj.input_at(2)), 3);
    assert_eq!(mj.on().conjunctions, vec![eq(1, 2), eq(0, 1)]);
}

#[test]
fn raw_right_join_side_shifts_by_left_width() {
    // A ⋈ (B ⋈ C): the right side's own predicate, locally B.0 = C.0,
    // moves up by A's width in the combined numbering of A, B, C.
    let a = scan(1, 2);
    let b = scan(2, 1);
    let c = scan(3, 1);
    let bc = inner_join(b, c, vec![eq(0, 1)]);
    let chain = inner_join(a, bc, vec![eq(0, 2)]);
    let mj = LogicalMultiJoin::from_join(&chain).unwrap();
    assert_eq!(mj.input_count(), 3);
    assert_eq!(table_id_of(mj.input_at(0)), 1);
    assert_eq!(table_id_of(mj.input_at(1)), 2);
    assert_eq!(table_id_of(mj.input_at(2)), 3);
    assert_eq!(mj.on().conjunctions, vec![eq(0, 2), eq(2, 3)]);
}

#[test]
fn non_inner_side_stays_one_opaque_operand() {
    // The left side is a left-outer join: the splice stops at it and it
    // stays one opaque operand.
    let a = scan(1, 1);
    let b = scan(2, 1);
    let c = scan(3, 1);
    let outer_ab = Rc::new(PlanNode::Join(LogicalJoin {
        base: PlanBase::new_logical(ctx(), Schema::new(int32_fields(2))),
        left: a,
        right: b,
        join_type: JoinType::LeftOuter,
        on: Condition { conjunctions: vec![eq(0, 1)] },
    }));
    let chain = inner_join(outer_ab, c, vec![eq(1, 2)]);
    let mj = LogicalMultiJoin::from_join(&chain).unwrap();
    assert_eq!(mj.input_count(), 2);
    assert_eq!(mj.on().conjunctions, vec![eq(1, 2)]);
}

#[test]
fn non_inner_join_is_not_flattened() {
    let a = scan(1, 1);
    let b = scan(2, 1);
    let fields = int32_fields(2);
    let outer = Rc::new(PlanNode::Join(LogicalJoin {
        base: PlanBase::new_logical(ctx(), Schema::new(fields)),
        left: a,
        right: b,
        join_type: JoinType::LeftOuter,
        on: Condition { conjunctions: vec![eq(0, 1)] },
    }));
    assert!(LogicalMultiJoin::from_join(&outer).is_none());
}

#[test]
fn two_opaque_sides_make_a_two_input_multi_join() {
    let a = scan(1, 2);
    let b = scan(2, 3);
    let j = inner_join(a, b, vec![eq(0, 3)]);
    let mj = LogicalMultiJoin::from_join(&j).unwrap();
    assert_eq!(mj.input_count(), 2);
    assert_eq!(mj.on().conjunctions, vec![eq(0, 3)]);
}

fn right_mj_shift_case(left_width: usize, right_width: usize, pred: Vec<Predicate>) -> Vec<Predicate> {
    // The right side is an already-flattened multi-join of width
    // `right_width` carrying `pred`; flattening the outer join must shift
    // its references up by `left_width`.
    let left = scan(1, left_width);
    let inner = scan(2, right_width);
    let right = Rc::new(PlanNode::MultiJoin(LogicalMultiJoin::new(
        PlanBase::new_logical(ctx(), Schema::new(int32_fields(right_width))),
        vec![inner],
        Condition { conjunctions: pred },
    )));
    let outer = inner_join(left, right, vec![]);
    let mj = LogicalMultiJoin::from_join(&outer).unwrap();
    mj.on().conjunctions.clone()
}

#[test]
fn right_side_references_shift_by_left_width() {
    // Width 1, reference at its only index 0.
    let shifted = right_mj_shift_case(2, 1, vec![Predicate::EqConst(InputRef { index: 0 }, 7)]);
    assert_eq!(shifted, vec![Predicate::EqConst(InputRef { index: 2 }, 7)]);
    // Width 3, references at the boundaries 0 and 2.
    let shifted = right_mj_shift_case(2, 3, vec![eq(0, 2)]);
    assert_eq!(shifted, vec![eq(2, 4)]);
    // Width 0: nothing to reference, nothing to shift.
    let shifted = right_mj_shift_case(2, 0, vec![]);
    assert_eq!(shifted, vec![]);
}

#[test]
fn clone_with_cond_keeps_inputs() {
    let a = scan(1, 1);
    let b = scan(2, 1);
    let j = inner_join(a, b, vec![eq(0, 1)]);
    let mj = LogicalMultiJoin::from_join(&j).unwrap();
    let replaced = mj.clone_with_cond(Condition { conjunctions: vec![] });
    assert_eq!(replaced.input_count(), 2);
    assert!(replaced.on().conjunctions.is_empty());
}

#[test]
fn tree_ops_list_and_replace_children() {
    let a = scan(1, 1);
    let b = scan(2, 1);
    let j = inner_join(a, b, vec![eq(0, 1)]);
    let children = j.inputs();
    assert_eq!(plan_inputs_len(&children), 2);
    assert_eq!(table_id_of(plan_inputs_get(&children, 0)), 1);
    assert_eq!(table_id_of(plan_inputs_get(&children, 1)), 2);

    let c = scan(3, 1);
    let d = scan(4, 1);
    let rebuilt = j.clone_with_inputs(&[c, d]).unwrap();
    let rebuilt_children = rebuilt.inputs();
    assert_eq!(table_id_of(plan_inputs_get(&rebuilt_children, 0)), 3);

    let e = scan(5, 1);
    let r = j.clone_with_inputs(&[e]);
    assert!(matches!(r, Err(ErrorCode::ArityMismatch { expected: 2, actual: 1 })));
}

#[test]
fn condition_evaluates_conjunctively() {
    let cond = Condition { conjunctions: vec![eq(0, 1), Predicate::LtCols(InputRef { index: 0 }, InputRef { index: 2 })] };
    assert!(cond.eval(&vec![3, 3, 5]));
    assert!(!cond.eval(&vec![3, 4, 5]));
    assert!(!cond.eval(&vec![3, 3, 2]));
    let shifted = cond.rewrite_expr(&ColIndexMapping::with_shift_offset(2), 3);
    assert_eq!(shifted.conjunctions, vec![eq(2, 3), Predicate::LtCols(InputRef { index: 2 }, InputRef { index: 4 })]);
}

#[test]
fn scan_prunes_to_required_columns() {
    let s = scan(9, 3);
    let mut required = bitset_with_capacity(3);
    bitset_insert(&mut required, 0);
    bitset_insert(&mut required, 2);
    let pruned = prune_col(&s, &required).unwrap();
    let ps = pruned.as_logical_scan().unwrap();
    assert_eq!(ps.base.schema.fields.len(), 2);
    assert_eq!(ps.output_cols, vec![0, 2]);
}

#[test]
fn generating_series_keeps_itself_under_pruning() {
    let g = LogicalGenerateSeries::create(0, 100, 10, Schema::new(vec![Field::unnamed(DataType::Timestamp)]), ctx());
    let mut required = bitset_with_capacity(1);
    bitset_insert(&mut required, 0);
    let pruned = prune_col(&g, &required).unwrap();
    assert_eq!(pruned.schema().fields.len(), 1);
}

#[test]
fn pruning_other_shapes_fails_loudly() {
    let a = scan(1, 1);
    let b = scan(2, 1);
    let j = inner_join(a, b, vec![eq(0, 1)]);
    let required = bitset_with_capacity(2);
    assert!(matches!(prune_col(&j, &required), Err(ErrorCode::NotImplemented)));
}

#[test]
fn batch_realization_keeps_schema() {
    let a = scan(1, 2);
    let b = scan(2, 1);
    let j = inner_join(a, b, vec![eq(0, 2)]);
    let batch = to_batch(&j).unwrap();
    match batch {
        BatchPlan::NestedLoopJoin { schema, .. } => assert_eq!(schema.fields.len(), 3),
        _ => panic!("expected a nested-loop join"),
    }
}

#[test]
fn multi_join_realization_is_an_acknowledged_gap() {
    let a = scan(1, 1);
    let b = scan(2, 1);
    let j = inner_join(a, b, vec![eq(0, 1)]);
    let mj = Rc::new(PlanNode::MultiJoin(LogicalMultiJoin::from_join(&j).unwrap()));
    assert!(matches!(to_batch(&mj), Err(ErrorCode::NotImplemented)));
    assert!(matches!(to_stream(&mj), Err(ErrorCode::NotImplemented)));
    assert!(matches!(logical_rewrite_for_stream(&mj), Err(ErrorCode::NotImplemented)));
}

#[test]
fn generating_series_has_no_streaming_form() {
    let g = LogicalGenerateSeries::create(0, 100, 10, Schema::new(vec![Field::unnamed(DataType::Timestamp)]), ctx());
    assert!(matches!(to_stream(&g), Err(ErrorCode::StreamUnsupported)));
    assert!(matches!(logical_rewrite_for_stream(&g), Err(ErrorCode::StreamUnsupported)));
    assert!(to_batch(&g).is_ok());
}

#[test]
fn scan_streams_in_place() {
    let s = scan(1, 2);
    let (rewritten, mapping) = logical_rewrite_for_stream(&s).unwrap();
    assert_eq!(mapping.offset, 0);
    assert_eq!(table_id_of(&rewritten), 1);
    match to_stream(&s).unwrap() {
        StreamPlan::TableScan { schema, .. } => assert_eq!(schema.fields.len(), 2),
        _ => panic!("expected a table scan"),
    }
}

#[test]
fn bound_set_expr_reports_and_drains_correlated_refs() {
    let schema = Schema::new(int32_fields(2));
    let mut e = BoundSetExpr::Select(Box::new(BoundSelect {
        schema,
        correlated_refs: vec![InputRef { index: 4 }],
    }));
    assert_eq!(e.schema().fields.len(), 2);
    assert!(e.has_correlated_input_ref());
    let taken = e.get_and_change_correlated_input_ref();
    assert_eq!(taken, vec![InputRef { index: 4 }]);
    assert!(!e.has_correlated_input_ref());

    let mut v = BoundSetExpr::Values(Box::new(BoundValues { schema: Schema::new(int32_fields(1)) }));
    assert!(!v.has_correlated_input_ref());
    assert!(v.get_and_change_correlated_input_ref().is_empty());
}

#[test]
fn materialized_view_listing_keeps_only_views() {
    let tables = vec![
        Table { id: 1, name: "t".to_string(), is_materialized_view: false, associated_table_id: None },
        Table { id: 2, name: "mv".to_string(), is_materialized_view: true, associated_table_id: Some(1) },
        Table { id: 3, name: "mv2".to_string(), is_materialized_view: true, associated_table_id: None },
    ];
    let rows = list_materialized_views(&tables);
    assert_eq!(rows.len(), 2);
    match &rows[0].0[0] {
        Some(Scalar::Int32(id)) => assert_eq!(*id, 2),
        _ => panic!("expected an id"),
    }
    match &rows[0].0[1] {
        Some(Scalar::Utf8(name)) => assert_eq!(name, "mv"),
        _ => panic!("expected a name"),
    }
    match &rows[0].0[2] {
        Some(Scalar::Int32(assoc)) => assert_eq!(*assoc, 1),
        _ => panic!("expected an associated table id"),
    }
    assert!(rows[1].0[2].is_none());

    let schema = rw_materialized_view_schema();
    assert_eq!(schema.fields.len(), 3);
    assert_eq!(schema.fields[1].name, "rel_name");
}
