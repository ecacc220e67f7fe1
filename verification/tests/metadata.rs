use std::collections::HashSet;

use fuse_planner::metadata::optimize_remove_count_args;
use fuse_planner::metadata::ColumnEntry;
use fuse_planner::metadata::Expr;
use fuse_planner::metadata::Literal;
use fuse_planner::metadata::Metadata;
use fuse_planner::metadata::Table;
use fuse_planner::metadata::TableEntry;
use fuse_planner::metadata::DUMMY_COLUMN_INDEX;
use fuse_planner::metadata::DUMMY_TABLE_INDEX;
use fuse_planner::metadata::GROUP_BY_KEY_COLUMN_INDEX;
use fuse_planner::types::NumberDataType;
use fuse_planner::types::TableDataType;
use fuse_planner::types::TableField;
use fuse_planner::types::TableSchema;

fn tuple(names: &[&str], types: Vec<TableDataType>) -> TableDataType {
    TableDataType::Tuple {
        fields_name: names.iter().map(|s| s.to_string()).collect(),
        fields_type: types,
    }
}

fn number(n: NumberDataType) -> TableDataType {
    TableDataType::Number(n)
}

/// a: UInt64, b: Nullable(Tuple(x: Int32, y: Tuple(p: String, q: Boolean))), c: UInt8
fn nested_table() -> Table {
    let inner = tuple(&["p", "q"], vec![TableDataType::String, TableDataType::Boolean]);
    let b = TableDataType::Nullable(Box::new(tuple(&["x", "y"], vec![number(NumberDataType::Int32), inner])));
    Table::new(
        "t".to_string(),
        TableSchema::new(vec![
            TableField::new("a", number(NumberDataType::UInt64)),
            TableField::new("b", b),
            TableField::new("c", number(NumberDataType::UInt8)),
        ]),
    )
}

struct Base {
    table_index: usize,
    column_index: usize,
    name: String,
    path: Option<Vec<usize>>,
    leaf: Option<usize>,
}

fn base(c: &ColumnEntry) -> Base {
    match c {
        ColumnEntry::BaseTableColumn {
            table_index,
            column_index,
            column_name,
            path_indices,
            leaf_index,
            ..
        } => Base {
            table_index: *table_index,
            column_index: *column_index,
            name: column_name.clone(),
            path: path_indices.clone(),
            leaf: *leaf_index,
        },
        ColumnEntry::DerivedColumn { .. } => panic!("expected a base table column"),
    }
}

#[test]
fn add_table_flattens_struct_fields_depth_first() {
    let mut m = Metadata::default();
    let t = m.add_table("default".to_string(), "db".to_string(), nested_table(), Some("alias".to_string()));
    assert_eq!(t, 0);
    let cols = m.columns();
    let got: Vec<(String, Option<Vec<usize>>, Option<usize>)> =
        cols.iter().map(|c| { let b = base(c); (b.name, b.path, b.leaf) }).collect();
    let expected: Vec<(String, Option<Vec<usize>>, Option<usize>)> = vec![
        ("a".to_string(), None, Some(0)),
        ("b".to_string(), None, None),
        ("b:x".to_string(), Some(vec![1, 0]), Some(1)),
        ("b:y".to_string(), Some(vec![1, 1]), None),
        ("b:y:p".to_string(), Some(vec![1, 1, 0]), Some(2)),
        ("b:y:q".to_string(), Some(vec![1, 1, 1]), Some(3)),
        ("c".to_string(), None, Some(4)),
    ];
    assert_eq!(got, expected);
    for (i, c) in cols.iter().enumerate() {
        let b = base(c);
        assert_eq!(b.column_index, i);
        assert_eq!(b.table_index, 0);
        assert_eq!(c.index(), i);
    }
    let entry = m.table(0);
    assert_eq!(entry.name(), "t");
    assert_eq!(entry.catalog(), "default");
    assert_eq!(entry.database(), "db");
    assert_eq!(entry.alias_name(), &Some("alias".to_string()));
    assert_eq!(entry.index(), 0);
    assert_eq!(entry.table().name(), "t");
    assert_eq!(entry.table().schema().num_fields(), 3);
    assert_eq!(m.tables().len(), 1);
}

#[test]
fn add_table_keeps_struct_type_of_struct_column() {
    let mut m = Metadata::default();
    m.add_table("c".to_string(), "d".to_string(), nested_table(), None);
    match m.column(1) {
        ColumnEntry::BaseTableColumn { data_type: TableDataType::Nullable(inner), .. } => {
            assert!(matches!(**inner, TableDataType::Tuple { .. }));
        }
        other => panic!("unexpected column {:?}", other),
    }
    match m.column(2) {
        ColumnEntry::BaseTableColumn { data_type: TableDataType::Number(NumberDataType::Int32), .. } => {}
        other => panic!("unexpected column {:?}", other),
    }
}

#[test]
fn tuple_with_more_types_than_names_counts_positions_from_the_end() {
    let mut m = Metadata::default();
    let s = tuple(&["x"], vec![TableDataType::String, TableDataType::Boolean]);
    let table = Table::new("u".to_string(), TableSchema::new(vec![TableField::new("s", s)]));
    m.add_table("c".to_string(), "d".to_string(), table, None);
    assert_eq!(m.columns().len(), 2);
    let b = base(m.column(1));
    assert_eq!(b.name, "s:x");
    assert_eq!(b.path, Some(vec![0, 1]));
    assert_eq!(b.leaf, Some(0));
}

#[test]
fn second_table_numbers_its_columns_after_the_first() {
    let mut m = Metadata::default();
    m.add_table("c".to_string(), "d".to_string(), nested_table(), None);
    let d = m.add_derived_column("sum".to_string(), number(NumberDataType::Int64));
    assert_eq!(d, 7);
    let table = Table::new(
        "v".to_string(),
        TableSchema::new(vec![TableField::new("k", TableDataType::String)]),
    );
    let t = m.add_table("c".to_string(), "d".to_string(), table, None);
    assert_eq!(t, 1);
    let b = base(m.column(8));
    assert_eq!((b.table_index, b.column_index, b.name.as_str(), b.leaf), (1, 8, "k", Some(0)));
    let cols = m.columns_by_table_index(1);
    assert_eq!(cols.len(), 1);
    assert_eq!(cols[0].index(), 8);
    assert_eq!(m.columns_by_table_index(0).len(), 7);
    assert_eq!(m.columns_by_table_index(5).len(), 0);
    match m.column(7) {
        ColumnEntry::DerivedColumn { column_index, alias, .. } => {
            assert_eq!(*column_index, 7);
            assert_eq!(alias, "sum");
        }
        other => panic!("unexpected column {:?}", other),
    }
}

#[test]
fn add_base_table_column_returns_the_new_index() {
    let mut m = Metadata::default();
    let i = m.add_base_table_column("x".to_string(), TableDataType::Boolean, 3, Some(vec![0, 2]), None);
    let j = m.add_base_table_column("y".to_string(), TableDataType::String, 3, None, Some(9));
    assert_eq!((i, j), (0, 1));
    let b = base(m.column(1));
    assert_eq!((b.table_index, b.column_index, b.name.as_str(), b.path, b.leaf), (3, 1, "y", None, Some(9)));
    let b = base(m.column(0));
    assert_eq!(b.path, Some(vec![0, 2]));
}

#[test]
fn table_index_by_column_indexes_finds_first_matching_base_column() {
    let mut m = Metadata::default();
    m.add_derived_column("d".to_string(), TableDataType::Boolean);
    m.add_base_table_column("x".to_string(), TableDataType::Boolean, 4, None, Some(0));
    m.add_base_table_column("y".to_string(), TableDataType::Boolean, 6, None, Some(0));
    let mut set = HashSet::new();
    set.insert(2usize);
    set.insert(0usize);
    assert_eq!(m.table_index_by_column_indexes(&set), Some(6));
    set.insert(1usize);
    assert_eq!(m.table_index_by_column_indexes(&set), Some(4));
    let mut only_derived = HashSet::new();
    only_derived.insert(0usize);
    assert_eq!(m.table_index_by_column_indexes(&only_derived), None);
    assert_eq!(m.table_index_by_column_indexes(&HashSet::new()), None);
}

#[test]
fn find_smallest_column_prefers_narrowest_number() {
    let mut m = Metadata::default();
    m.add_base_table_column("s".to_string(), TableDataType::String, 0, None, Some(0));
    m.add_base_table_column("a".to_string(), number(NumberDataType::Int64), 0, None, Some(1));
    m.add_base_table_column("b".to_string(), number(NumberDataType::UInt16), 0, None, Some(2));
    m.add_base_table_column("c".to_string(), number(NumberDataType::Int16), 0, None, Some(3));
    m.add_base_table_column("d".to_string(), number(NumberDataType::Float32), 0, None, Some(4));
    assert_eq!(m.find_smallest_column(&[0, 1, 2, 3, 4]), 2);
    assert_eq!(m.find_smallest_column(&[3, 2]), 3);
    assert_eq!(m.find_smallest_column(&[4, 1]), 4);
    assert_eq!(m.find_smallest_column(&[0]), 0);
    assert_eq!(m.find_smallest_column_by_table_index(0), 2);
}

#[test]
fn find_smallest_column_without_numbers_takes_least_index() {
    let mut m = Metadata::default();
    for i in 0..4 {
        m.add_base_table_column(format!("s{}", i), TableDataType::String, 1, None, Some(i));
    }
    m.add_derived_column("n".to_string(), number(NumberDataType::UInt8));
    assert_eq!(m.find_smallest_column(&[3, 1, 2]), 1);
    // a derived column is never a numeric candidate
    assert_eq!(m.find_smallest_column(&[4, 2]), 2);
    assert_eq!(m.find_smallest_column_by_table_index(1), 0);
}

#[test]
fn optimize_remove_count_args_cases() {
    let one = Expr::Literal { lit: Literal::UInt64(1) };
    let s = Expr::Literal { lit: Literal::String("x".to_string()) };
    let null = Expr::Literal { lit: Literal::Null };
    let col = Expr::ColumnRef { column: "a".to_string() };
    assert!(optimize_remove_count_args("count", false, &[&one]));
    assert!(optimize_remove_count_args("COUNT", false, &[&one, &s]));
    assert!(optimize_remove_count_args("CoUnT", false, &[]));
    assert!(!optimize_remove_count_args("count", true, &[&one]));
    assert!(!optimize_remove_count_args("count", false, &[&one, &null]));
    assert!(!optimize_remove_count_args("count", false, &[&col]));
    assert!(!optimize_remove_count_args("sum", false, &[&one]));
    assert!(!optimize_remove_count_args("counts", false, &[&one]));
}

#[test]
fn metadata_clone_is_equal() {
    let mut m = Metadata::default();
    m.add_table("c".to_string(), "d".to_string(), nested_table(), None);
    let n = m.clone();
    assert_eq!(n.columns().len(), m.columns().len());
    assert_eq!(n.tables().len(), 1);
    assert_eq!(base(n.column(4)).name, "b:y:p");
}

#[test]
fn table_entry_new_and_getters() {
    let e = TableEntry::new(
        3,
        "t".to_string(),
        None,
        "cat".to_string(),
        "db".to_string(),
        Table::new("t".to_string(), TableSchema::new(vec![])),
    );
    assert_eq!(e.index(), 3);
    assert_eq!(e.name(), "t");
    assert_eq!(e.catalog(), "cat");
    assert_eq!(e.database(), "db");
    assert_eq!(e.alias_name(), &None);
    assert_eq!(e.table().schema().num_fields(), 0);
}

#[test]
fn special_indices() {
    assert_eq!(DUMMY_TABLE_INDEX, usize::MAX);
    assert_eq!(DUMMY_COLUMN_INDEX, usize::MAX);
    assert_eq!(GROUP_BY_KEY_COLUMN_INDEX, usize::MAX - 1);
}

#[test]
fn table_entry_debug_string() {
    let e = TableEntry::new(
        12,
        "t\"x".to_string(),
        Some("a".to_string()),
        "cat".to_string(),
        "db".to_string(),
        Table::new("t".to_string(), TableSchema::new(vec![])),
    );
    assert_eq!(
        e.debug_string(),
        "TableEntry { catalog: \"cat\", database: \"db\", name: \"t\\\"x\", index: 12, .. }"
    );
    let e0 = TableEntry::new(0, "n".to_string(), None, "c".to_string(), "d".to_string(), Table::new("n".to_string(), TableSchema::new(vec![])));
    assert_eq!(e0.debug_string(), "TableEntry { catalog: \"c\", database: \"d\", name: \"n\", index: 0, .. }");
}
