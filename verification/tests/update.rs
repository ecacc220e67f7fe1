use fuse_planner::types::NumberDataType;
use fuse_planner::types::TableDataType;
use fuse_planner::types::TableField;
use fuse_planner::types::TableSchema;
use fuse_planner::update::plan_update_columns;
use fuse_planner::update::update_action;
use fuse_planner::update::update_action_after_const_filter;
use fuse_planner::update::update_input_schema;
use fuse_planner::update::UpdateAction;

fn is_skip(a: &UpdateAction) -> bool {
    matches!(a, UpdateAction::Skip)
}

#[test]
fn update_without_columns_reads_everything() {
    let p = plan_update_columns(&[0, 1, 2, 3], &[], &[2, 0]);
    assert_eq!(p.projection, vec![0, 1, 2, 3]);
    assert!(p.remain_col_ids.is_empty());
    // 0 -> 5 (updated), 1 -> 1, 2 -> 4 (updated), 3 -> 3
    assert_eq!(p.output_offsets, vec![5, 1, 4, 3]);
}

#[test]
fn update_with_columns_reads_named_then_rest_then_predicate() {
    let p = plan_update_columns(&[0, 1, 2, 3], &[3, 1], &[1]);
    assert_eq!(p.projection, vec![3, 1]);
    assert_eq!(p.remain_col_ids, vec![0, 2]);
    // named: 3 -> 0, 1 -> 1; rest: 0 -> 2, 2 -> 3; predicate at 4; update: 1 -> 5
    assert_eq!(p.output_offsets, vec![2, 5, 3, 0]);
}

#[test]
fn update_naming_every_column_has_no_second_reader() {
    let p = plan_update_columns(&[0, 1], &[1, 0], &[0]);
    assert_eq!(p.projection, vec![1, 0]);
    assert!(p.remain_col_ids.is_empty());
    // 1 -> 0, 0 -> 1, predicate at 2, update 0 -> 3
    assert_eq!(p.output_offsets, vec![3, 0]);
}

fn names(s: &TableSchema) -> Vec<String> {
    s.fields().iter().map(|f| f.name().clone()).collect()
}

#[test]
fn update_input_schema_cases() {
    let schema = TableSchema::new(vec![
        TableField::new("a", TableDataType::Number(NumberDataType::Int32)),
        TableField::new("b", TableDataType::String),
        TableField::new("c", TableDataType::Boolean),
    ]);
    let same = update_input_schema(&schema, &[], &[]);
    assert_eq!(names(&same), vec!["a", "b", "c"]);
    let s = update_input_schema(&schema, &[2], &[0, 1]);
    assert_eq!(names(&s), vec!["c", "a", "b", "_predicate"]);
    assert!(matches!(s.fields()[3].data_type(), TableDataType::Boolean));
    assert_eq!(s.index_of("_predicate"), Some(3));
    assert_eq!(s.index_of("b"), Some(2));
    assert_eq!(s.index_of("z"), None);
}

#[test]
fn update_decisions() {
    assert!(is_skip(&update_action(None, false, true)));
    assert!(is_skip(&update_action(Some(0), true, true)));
    assert!(matches!(update_action(Some(5), true, true), UpdateAction::EvalConstFilter));
    assert!(matches!(update_action(Some(5), false, true), UpdateAction::BuildPipeline { keep_filter: true }));
    assert!(matches!(update_action(Some(5), true, false), UpdateAction::BuildPipeline { keep_filter: false }));
    assert!(is_skip(&update_action_after_const_filter(false)));
    assert!(matches!(update_action_after_const_filter(true), UpdateAction::BuildPipeline { keep_filter: false }));
}
