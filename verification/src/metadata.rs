//! The planner's catalogue of the tables and columns a query uses.
use std::collections::HashSet;
use std::collections::VecDeque;

use vstd::prelude::*;
use vstd::string::StrSliceExecFns;
use vstd::string::StringExecFns;

use crate::types::{DataType, FieldView, TableDataType, TableField, TableSchema, TypeView, fields_view, spec_remove_nullable};

verus! {

/// Planner use [`usize`] as it's index type.
///
/// This type will be used across the whole planner.
pub type IndexType = usize;

/// Use IndexType::MAX to represent dummy table.
pub const DUMMY_TABLE_INDEX: IndexType = usize::MAX;

pub const DUMMY_COLUMN_INDEX: IndexType = usize::MAX;

/// A special index value to represent the internal column `_group_by_key`, which is
/// used to store the group by key in the final aggregation stage.
pub const GROUP_BY_KEY_COLUMN_INDEX: IndexType = usize::MAX - 1;

/// ColumnSet represents a set of columns identified by its IndexType.
pub type ColumnSet = HashSet<IndexType>;

// ---------------------------------------------------------------------------
// Tables
// ---------------------------------------------------------------------------

/// The mathematical value of a [`Table`].
pub struct TableView {
    pub name: Seq<char>,
    pub schema: Seq<FieldView>,
}

/// What the planner reads of a table: its name and its schema.
#[derive(Debug)]
pub struct Table {
    name: String,
    schema: TableSchema,
}

impl View for Table {
    type V = TableView;

    closed spec fn view(&self) -> TableView {
        TableView { name: self.name@, schema: self.schema@ }
    }
}

impl Clone for Table {
    fn clone(&self) -> (res: Self)
        ensures
            res@ == self@,
    {
        Table { name: self.name.clone(), schema: self.schema.clone() }
    }
}

impl Table {
    pub fn new(name: String, schema: TableSchema) -> (res: Table)
        ensures
            res@ == (TableView { name: name@, schema: schema@ }),
    {
        Table { name, schema }
    }

    pub fn name(&self) -> (res: &str)
        ensures
            res@ == self@.name,
    {
        self.name.as_str()
    }

    pub fn schema(&self) -> (res: &TableSchema)
        ensures
            res@ == self@.schema,
    {
        &self.schema
    }
}

/// The mathematical value of a [`TableEntry`].
pub struct TableEntryView {
    pub catalog: Seq<char>,
    pub database: Seq<char>,
    pub name: Seq<char>,
    pub alias_name: Option<Seq<char>>,
    pub index: IndexType,
    pub table: TableView,
}

pub open spec fn option_string_view(s: Option<String>) -> Option<Seq<char>> {
    match s {
        Some(s) => Some(s@),
        None => None,
    }
}

pub struct TableEntry {
    catalog: String,
    database: String,
    name: String,
    alias_name: Option<String>,
    index: IndexType,
    table: Table,
}

impl View for TableEntry {
    type V = TableEntryView;

    closed spec fn view(&self) -> TableEntryView {
        TableEntryView {
            catalog: self.catalog@,
            database: self.database@,
            name: self.name@,
            alias_name: option_string_view(self.alias_name),
            index: self.index,
            table: self.table@,
        }
    }
}

impl Clone for TableEntry {
    fn clone(&self) -> (res: Self)
        ensures
            res@ == self@,
    {
        TableEntry {
            catalog: self.catalog.clone(),
            database: self.database.clone(),
            name: self.name.clone(),
            alias_name: clone_option_string(&self.alias_name),
            index: self.index,
            table: self.table.clone(),
        }
    }
}

fn clone_option_string(s: &Option<String>) -> (res: Option<String>)
    ensures
        option_string_view(res) == option_string_view(*s),
{
    match s {
        Some(s) => Some(s.clone()),
        None => None,
    }
}

impl TableEntry {
    pub fn new(
        index: IndexType,
        name: String,
        alias_name: Option<String>,
        catalog: String,
        database: String,
        table: Table,
    ) -> (res: Self)
        ensures
            res@ == (TableEntryView {
                catalog: catalog@,
                database: database@,
                name: name@,
                alias_name: option_string_view(alias_name),
                index,
                table: table@,
            }),
    {
        TableEntry { index, name, catalog, database, table, alias_name }
    }

    /// The text the planner prints for this entry:
    /// `TableEntry { catalog: "..", database: "..", name: "..", index: N, .. }`,
    /// each name quoted and escaped as `Debug` prints a string.
    pub fn debug_string(&self) -> (res: String)
        ensures
            res@ == "TableEntry { catalog: "@ + str_debug(self@.catalog) + ", database: "@ + str_debug(
                self@.database,
            ) + ", name: "@ + str_debug(self@.name) + ", index: "@ + decimal(self@.index as nat)
                + ", .. }"@,
    {
        let mut res = String::from_str("TableEntry { catalog: ");
        res.append(debug_quoted(self.catalog.as_str()).as_str());
        res.append(", database: ");
        res.append(debug_quoted(self.database.as_str()).as_str());
        res.append(", name: ");
        res.append(debug_quoted(self.name.as_str()).as_str());
        res.append(", index: ");
        res.append(decimal_string(self.index).as_str());
        res.append(", .. }");
        res
    }

    /// Get the catalog name of this table entry.
    pub fn catalog(&self) -> (res: &str)
        ensures
            res@ == self@.catalog,
    {
        self.catalog.as_str()
    }

    /// Get the database name of this table entry.
    pub fn database(&self) -> (res: &str)
        ensures
            res@ == self@.database,
    {
        self.database.as_str()
    }

    /// Get the name of this table entry.
    pub fn name(&self) -> (res: &str)
        ensures
            res@ == self@.name,
    {
        self.name.as_str()
    }

    /// Get the alias name of this table entry.
    pub fn alias_name(&self) -> (res: &Option<String>)
        ensures
            option_string_view(*res) == self@.alias_name,
    {
        &self.alias_name
    }

    /// Get the index this table entry.
    pub fn index(&self) -> (res: IndexType)
        ensures
            res == self@.index,
    {
        self.index
    }

    /// Get the table of this table entry.
    pub fn table(&self) -> (res: Table)
        ensures
            res@ == self@.table,
    {
        self.table.clone()
    }
}

/// The text `Debug` prints for a string: the string between double quotes,
/// with quotes, backslashes and unprintable characters escaped.
pub uninterp spec fn str_debug(s: Seq<char>) -> Seq<char>;

/// `<str as Debug>::fmt`, through `format!("{:?}", s)`: the quoted, escaped
/// text of `s`, which depends on `s` alone.
#[verifier::external_body]
fn debug_quoted(s: &str) -> (res: String)
    ensures
        res@ == str_debug(s@),
{
    format!("{:?}", s)
}

/// The decimal digits of `n`, most significant first, with no leading zero.
pub open spec fn decimal(n: nat) -> Seq<char>
    decreases n,
{
    if n < 10 {
        seq![digit_char(n)]
    } else {
        decimal(n / 10) + seq![digit_char(n % 10)]
    }
}

pub open spec fn digit_char(d: nat) -> char {
    if d == 0 { '0' } else if d == 1 { '1' } else if d == 2 { '2' } else if d == 3 { '3' } else if d == 4 {
        '4'
    } else if d == 5 { '5' } else if d == 6 { '6' } else if d == 7 { '7' } else if d == 8 { '8' } else { '9' }
}

fn digit_str(d: usize) -> (res: &'static str)
    requires
        d < 10,
    ensures
        res@ == seq![digit_char(d as nat)],
{
    proof {
        reveal_strlit("0");
        reveal_strlit("1");
        reveal_strlit("2");
        reveal_strlit("3");
        reveal_strlit("4");
        reveal_strlit("5");
        reveal_strlit("6");
        reveal_strlit("7");
        reveal_strlit("8");
        reveal_strlit("9");
    }
    if d == 0 { "0" } else if d == 1 { "1" } else if d == 2 { "2" } else if d == 3 { "3" } else if d == 4 {
        "4"
    } else if d == 5 { "5" } else if d == 6 { "6" } else if d == 7 { "7" } else if d == 8 { "8" } else { "9" }
}

/// `n` written in decimal, as `Debug` and `Display` print an integer.
fn decimal_string(n: usize) -> (res: String)
    ensures
        res@ == decimal(n as nat),
    decreases n,
{
    if n < 10 {
        String::from_str(digit_str(n))
    } else {
        let mut res = decimal_string(n / 10);
        res.append(digit_str(n % 10));
        res
    }
}

// ---------------------------------------------------------------------------
// Columns
// ---------------------------------------------------------------------------

#[derive(Debug)]
pub enum ColumnEntry {
    /// Column from base table, for example `SELECT t.a, t.b FROM t`.
    BaseTableColumn {
        table_index: IndexType,
        column_index: IndexType,
        column_name: String,
        data_type: TableDataType,
        /// Path indices for inner column of struct data type.
        path_indices: Option<Vec<usize>>,
        /// Leaf index is the primitive column index in Parquet, constructed in DFS order.
        /// None if the data type of column is struct.
        leaf_index: Option<usize>,
    },
    /// Column synthesized from other columns, for example `SELECT t.a + t.b AS a FROM t`.
    DerivedColumn { column_index: IndexType, alias: String, data_type: DataType },
}

/// The mathematical value of a [`ColumnEntry`].
pub enum ColumnView {
    BaseTableColumn {
        table_index: IndexType,
        column_index: IndexType,
        column_name: Seq<char>,
        data_type: TypeView,
        path_indices: Option<Seq<usize>>,
        leaf_index: Option<usize>,
    },
    DerivedColumn { column_index: IndexType, alias: Seq<char>, data_type: TypeView },
}

pub open spec fn option_vec_view(v: Option<Vec<usize>>) -> Option<Seq<usize>> {
    match v {
        Some(v) => Some(v@),
        None => None,
    }
}

impl View for ColumnEntry {
    type V = ColumnView;

    open spec fn view(&self) -> ColumnView {
        match self {
            ColumnEntry::BaseTableColumn {
                table_index,
                column_index,
                column_name,
                data_type,
                path_indices,
                leaf_index,
            } => ColumnView::BaseTableColumn {
                table_index: *table_index,
                column_index: *column_index,
                column_name: column_name@,
                data_type: data_type@,
                path_indices: option_vec_view(*path_indices),
                leaf_index: *leaf_index,
            },
            ColumnEntry::DerivedColumn { column_index, alias, data_type } => ColumnView::DerivedColumn {
                column_index: *column_index,
                alias: alias@,
                data_type: data_type@,
            },
        }
    }
}

fn clone_option_vec(v: &Option<Vec<usize>>) -> (res: Option<Vec<usize>>)
    ensures
        option_vec_view(res) == option_vec_view(*v),
{
    match v {
        Some(v) => {
            let c = v.clone();
            assert(c@ =~= v@);
            Some(c)
        },
        None => None,
    }
}

impl Clone for ColumnEntry {
    fn clone(&self) -> (res: Self)
        ensures
            res@ == self@,
    {
        match self {
            ColumnEntry::BaseTableColumn {
                table_index,
                column_index,
                column_name,
                data_type,
                path_indices,
                leaf_index,
            } => ColumnEntry::BaseTableColumn {
                table_index: *table_index,
                column_index: *column_index,
                column_name: column_name.clone(),
                data_type: data_type.clone(),
                path_indices: clone_option_vec(path_indices),
                leaf_index: *leaf_index,
            },
            ColumnEntry::DerivedColumn { column_index, alias, data_type } => ColumnEntry::DerivedColumn {
                column_index: *column_index,
                alias: alias.clone(),
                data_type: data_type.clone(),
            },
        }
    }
}

/// The index a column is identified by.
pub open spec fn column_index_of(c: ColumnView) -> IndexType {
    match c {
        ColumnView::BaseTableColumn { column_index, .. } => column_index,
        ColumnView::DerivedColumn { column_index, .. } => column_index,
    }
}

impl ColumnEntry {
    pub fn index(&self) -> (res: IndexType)
        ensures
            res == column_index_of(self@),
    {
        match self {
            ColumnEntry::BaseTableColumn { column_index, .. } => *column_index,
            ColumnEntry::DerivedColumn { column_index, .. } => *column_index,
        }
    }
}

pub open spec fn columns_view(s: Seq<ColumnEntry>) -> Seq<ColumnView> {
    s.map_values(|c: ColumnEntry| c@)
}

pub open spec fn table_entries_view(s: Seq<TableEntry>) -> Seq<TableEntryView> {
    s.map_values(|t: TableEntry| t@)
}


// ---------------------------------------------------------------------------
// The columns a table schema yields
// ---------------------------------------------------------------------------

/// A field on its way to becoming columns: its position path within the
/// schema, its full name, and its type.
pub struct PendingField {
    pub path: Seq<usize>,
    pub name: Seq<char>,
    pub data_type: TypeView,
}

/// Number of nodes in a type.
pub open spec fn type_size(t: TypeView) -> nat
    decreases t,
{
    match t {
        TypeView::Nullable(inner) => 1 + type_size(*inner),
        TypeView::Array(inner) => 1 + type_size(*inner),
        TypeView::Tuple { fields_type, .. } => 1 + types_size(fields_type),
        _ => 1,
    }
}

pub open spec fn types_size(s: Seq<TypeView>) -> nat
    decreases s,
{
    if s.len() == 0 {
        0
    } else {
        type_size(s[0]) + types_size(s.subrange(1, s.len() as int))
    }
}

pub open spec fn items_size(items: Seq<PendingField>) -> nat
    decreases items.len(),
{
    if items.len() == 0 {
        0
    } else {
        type_size(items[0].data_type) + items_size(items.drop_first())
    }
}

/// The subfield names and types of a struct type, looking through one `Nullable`.
pub open spec fn tuple_parts(t: TypeView) -> Option<(Seq<Seq<char>>, Seq<TypeView>)> {
    match spec_remove_nullable(t) {
        TypeView::Tuple { fields_name, fields_type } => Some((fields_name, fields_type)),
        _ => None,
    }
}

/// The subfields of a struct-typed field, in order: names and types are paired
/// up to the shorter of the two lists, and the position recorded in a
/// subfield's path counts from the end of the type list.
pub open spec fn children(it: PendingField, names: Seq<Seq<char>>, types: Seq<TypeView>) -> Seq<PendingField> {
    let m = if names.len() <= types.len() { names.len() } else { types.len() };
    let d = types.len() - m;
    Seq::new(
        m,
        |j: int|
            PendingField {
                path: it.path.push((j + d) as usize),
                name: it.name + seq![':'] + names[j],
                data_type: types[j],
            },
    )
}

/// The column a field becomes, at position `col` of the column list.
pub open spec fn field_column(it: PendingField, table_index: IndexType, col: nat, leaf_index: Option<usize>) -> ColumnView {
    ColumnView::BaseTableColumn {
        table_index,
        column_index: col as IndexType,
        column_name: it.name,
        data_type: it.data_type,
        path_indices: if it.path.len() > 1 { Some(it.path) } else { None },
        leaf_index,
    }
}

/// Number of primitive (non-struct) columns a field yields.
pub open spec fn item_leaves(it: PendingField) -> nat
    decreases type_size(it.data_type), 0nat,
{
    match tuple_parts(it.data_type) {
        Some((names, types)) => {
            proof {
                lemma_children_smaller(it, names, types);
            }
            items_leaves(children(it, names, types))
        },
        None => 1,
    }
}

pub open spec fn items_leaves(items: Seq<PendingField>) -> nat
    decreases items_size(items), 1nat,
{
    if items.len() == 0 {
        0
    } else {
        proof {
            lemma_items_size_first(items);
        }
        item_leaves(items[0]) + items_leaves(items.drop_first())
    }
}

/// The columns a field yields in depth-first order: the field itself, then,
/// for a struct, the columns of each subfield in turn. Primitive columns are
/// numbered from `leaf` on.
pub open spec fn item_columns(it: PendingField, table_index: IndexType, col: nat, leaf: nat) -> Seq<ColumnView>
    decreases type_size(it.data_type), 0nat,
{
    match tuple_parts(it.data_type) {
        Some((names, types)) => {
            proof {
                lemma_children_smaller(it, names, types);
            }
            seq![field_column(it, table_index, col, None)] + items_columns(
                children(it, names, types),
                table_index,
                col + 1,
                leaf,
            )
        },
        None => seq![field_column(it, table_index, col, Some(leaf as usize))],
    }
}

/// The columns of a list of fields, one field after the other.
pub open spec fn items_columns(items: Seq<PendingField>, table_index: IndexType, col: nat, leaf: nat) -> Seq<ColumnView>
    decreases items_size(items), 1nat,
{
    if items.len() == 0 {
        Seq::empty()
    } else {
        proof {
            lemma_items_size_first(items);
        }
        let head = item_columns(items[0], table_index, col, leaf);
        head + items_columns(items.drop_first(), table_index, col + head.len(), leaf + item_leaves(items[0]))
    }
}

/// The top-level fields of a schema, each with its position as its path.
pub open spec fn schema_items(schema: Seq<FieldView>) -> Seq<PendingField> {
    Seq::new(schema.len(), |i: int| PendingField { path: seq![i as usize], name: schema[i].name, data_type: schema[i].data_type })
}

/// The columns a table contributes when it is added as table `table_index`
/// while the column list has length `col`.
pub open spec fn table_columns(table: TableView, table_index: IndexType, col: nat) -> Seq<ColumnView> {
    items_columns(schema_items(table.schema), table_index, col, 0)
}

pub proof fn lemma_type_size_pos(t: TypeView)
    ensures
        type_size(t) >= 1,
{
}

pub proof fn lemma_items_size_first(items: Seq<PendingField>)
    requires
        items.len() > 0,
    ensures
        type_size(items[0].data_type) <= items_size(items),
        items_size(items.drop_first()) < items_size(items),
{
    lemma_type_size_pos(items[0].data_type);
}

pub proof fn lemma_types_size_take(s: Seq<TypeView>, m: int)
    requires
        0 <= m <= s.len(),
    ensures
        types_size(s.take(m)) <= types_size(s),
    decreases s.len(),
{
    if m > 0 {
        assert(s.take(m).subrange(1, m) =~= s.subrange(1, s.len() as int).take(m - 1));
        lemma_types_size_take(s.subrange(1, s.len() as int), m - 1);
    }
}

pub proof fn lemma_children_size(it: PendingField, names: Seq<Seq<char>>, types: Seq<TypeView>, k: int)
    requires
        0 <= k <= children(it, names, types).len(),
    ensures
        items_size(children(it, names, types).subrange(k, children(it, names, types).len() as int))
            == types_size(types.take(children(it, names, types).len() as int).subrange(k, children(it, names, types).len() as int)),
    decreases children(it, names, types).len() - k,
{
    let c = children(it, names, types);
    let m = c.len() as int;
    let tt = types.take(m).subrange(k, m);
    if k < m {
        lemma_children_size(it, names, types, k + 1);
        assert(c.subrange(k, m).drop_first() =~= c.subrange(k + 1, m));
        assert(tt.subrange(1, tt.len() as int) =~= types.take(m).subrange(k + 1, m));
    }
}

pub proof fn lemma_children_smaller(it: PendingField, names: Seq<Seq<char>>, types: Seq<TypeView>)
    requires
        tuple_parts(it.data_type) == Some((names, types)),
    ensures
        items_size(children(it, names, types)) < type_size(it.data_type),
{
    let c = children(it, names, types);
    let m = c.len() as int;
    lemma_children_size(it, names, types, 0);
    assert(c.subrange(0, m) =~= c);
    assert(types.take(m).subrange(0, m) =~= types.take(m));
    lemma_types_size_take(types, m);
    match it.data_type {
        TypeView::Nullable(inner) => {
            assert(*inner == (TypeView::Tuple { fields_name: names, fields_type: types }));
            assert(type_size(*inner) == 1 + types_size(types));
        },
        _ => {
            assert(it.data_type == (TypeView::Tuple { fields_name: names, fields_type: types }));
        },
    }
}


/// The fields waiting in the work queue of [`Metadata::add_table`].
pub open spec fn pending_view(s: Seq<(Vec<usize>, TableField)>) -> Seq<PendingField> {
    s.map_values(|p: (Vec<usize>, TableField)| PendingField { path: p.0@, name: p.1@.name, data_type: p.1@.data_type })
}

pub proof fn lemma_items_size_append(a: Seq<PendingField>, b: Seq<PendingField>)
    ensures
        items_size(a + b) == items_size(a) + items_size(b),
    decreases a.len(),
{
    if a.len() > 0 {
        assert((a + b).drop_first() =~= a.drop_first() + b);
        lemma_items_size_append(a.drop_first(), b);
    } else {
        assert(a + b =~= b);
    }
}

/// Listing the columns of two lists of fields one after the other is listing
/// the columns of their concatenation.
pub proof fn lemma_items_columns_append(
    a: Seq<PendingField>,
    b: Seq<PendingField>,
    table_index: IndexType,
    col: nat,
    leaf: nat,
)
    ensures
        items_columns(a + b, table_index, col, leaf) == items_columns(a, table_index, col, leaf)
            + items_columns(
            b,
            table_index,
            col + items_columns(a, table_index, col, leaf).len(),
            leaf + items_leaves(a),
        ),
    decreases a.len(),
{
    if a.len() == 0 {
        assert(a + b =~= b);
        assert(items_columns(a, table_index, col, leaf) =~= Seq::<ColumnView>::empty());
        assert(items_columns(a + b, table_index, col, leaf) =~= items_columns(a, table_index, col, leaf)
            + items_columns(b, table_index, col, leaf));
    } else {
        let head = item_columns(a[0], table_index, col, leaf);
        assert((a + b)[0] == a[0]);
        assert((a + b).drop_first() =~= a.drop_first() + b);
        lemma_items_columns_append(a.drop_first(), b, table_index, col + head.len(), leaf + item_leaves(a[0]));
        assert(items_columns(a + b, table_index, col, leaf) =~= items_columns(a, table_index, col, leaf)
            + items_columns(
            b,
            table_index,
            col + items_columns(a, table_index, col, leaf).len(),
            leaf + items_leaves(a),
        ));
    }
}

// ---------------------------------------------------------------------------
// Metadata
// ---------------------------------------------------------------------------

/// The mathematical value of a [`Metadata`].
pub struct MetadataView {
    pub tables: Seq<TableEntryView>,
    pub columns: Seq<ColumnView>,
}

impl MetadataView {
    /// Tables and columns are identified with their unique index: the entry
    /// at each position records that position as its index.
    pub open spec fn wf(self) -> bool {
        &&& forall|i: int| 0 <= i < self.tables.len() ==> #[trigger] self.tables[i].index == i
        &&& forall|i: int| 0 <= i < self.columns.len() ==> #[trigger] column_index_of(self.columns[i]) == i
    }
}

/// Metadata stores information about columns and tables used in a query.
/// Tables and columns are identified with its unique index.
/// Notice that index value of a column can be same with that of a table.
pub struct Metadata {
    tables: Vec<TableEntry>,
    columns: Vec<ColumnEntry>,
}

impl View for Metadata {
    type V = MetadataView;

    closed spec fn view(&self) -> MetadataView {
        MetadataView { tables: table_entries_view(self.tables@), columns: columns_view(self.columns@) }
    }
}

impl Metadata {
    /// Tables and columns are identified with their unique index.
    #[verifier::type_invariant]
    spec fn inv(self) -> bool {
        self@.wf()
    }
}

impl Default for Metadata {
    fn default() -> (res: Self)
        ensures
            res@.tables == Seq::<TableEntryView>::empty(),
            res@.columns == Seq::<ColumnView>::empty(),
            res@.wf(),
    {
        let res = Metadata { tables: Vec::new(), columns: Vec::new() };
        assert(res@.tables =~= Seq::<TableEntryView>::empty());
        assert(res@.columns =~= Seq::<ColumnView>::empty());
        res
    }
}

impl Clone for Metadata {
    fn clone(&self) -> (res: Self)
        ensures
            res@ == self@,
    {
        let mut tables: Vec<TableEntry> = Vec::new();
        let mut i: usize = 0;
        while i < self.tables.len()
            invariant
                i <= self.tables.len(),
                tables.len() == i,
                forall|j: int| 0 <= j < i ==> #[trigger] tables@[j]@ == self.tables@[j]@,
            decreases self.tables.len() - i,
        {
            tables.push(self.tables[i].clone());
            i = i + 1;
        }
        let mut columns: Vec<ColumnEntry> = Vec::new();
        let mut i: usize = 0;
        while i < self.columns.len()
            invariant
                i <= self.columns.len(),
                columns.len() == i,
                forall|j: int| 0 <= j < i ==> #[trigger] columns@[j]@ == self.columns@[j]@,
            decreases self.columns.len() - i,
        {
            columns.push(self.columns[i].clone());
            i = i + 1;
        }
        proof {
            use_type_invariant(self);
            assert(table_entries_view(tables@) =~= self@.tables);
            assert(columns_view(columns@) =~= self@.columns);
        }
        let res = Metadata { tables, columns };
        assert(res@.tables =~= self@.tables);
        assert(res@.columns =~= self@.columns);
        res
    }
}

/// Whether `c` is a column of base table `table_index`.
pub open spec fn is_column_of_table(c: ColumnView, table_index: IndexType) -> bool {
    c matches ColumnView::BaseTableColumn { table_index: t, .. } && t == table_index
}

/// The table of the first base-table column whose index is in `set`, if any.
pub open spec fn spec_table_index_by_column_indexes(columns: Seq<ColumnView>, set: Set<IndexType>) -> Option<IndexType>
    decreases columns.len(),
{
    if columns.len() == 0 {
        None
    } else {
        match columns[0] {
            ColumnView::BaseTableColumn { column_index, table_index, .. } if set.contains(column_index) => Some(
                table_index,
            ),
            _ => spec_table_index_by_column_indexes(columns.drop_first(), set),
        }
    }
}

/// The base-table columns of table `table_index`, in order.
pub open spec fn spec_columns_by_table_index(columns: Seq<ColumnView>, table_index: IndexType) -> Seq<ColumnView> {
    columns.filter_map(|c: ColumnView| if is_column_of_table(c, table_index) { Some(c) } else { None })
}

/// The indices of the base-table columns of table `table_index`, in order.
pub open spec fn table_column_indices(columns: Seq<ColumnView>, table_index: IndexType) -> Seq<IndexType> {
    columns.filter_map(
        |c: ColumnView|
            if is_column_of_table(c, table_index) {
                Some(column_index_of(c))
            } else {
                None
            },
    )
}

/// The bit width of a base-table column of numeric type; `None` for any other column.
pub open spec fn numeric_width(c: ColumnView) -> Option<u8> {
    match c {
        ColumnView::BaseTableColumn { data_type: TypeView::Number(n), .. } => Some(crate::types::spec_bit_width(n)),
        _ => None,
    }
}

/// `r` is the column that `find_smallest_column` picks among `indices`: the
/// first of the numeric columns of least bit width, or, when none of them is
/// numeric, the least index.
pub open spec fn is_smallest_column(columns: Seq<ColumnView>, indices: Seq<IndexType>, r: IndexType) -> bool {
    if exists|i: int| 0 <= i < indices.len() && (#[trigger] numeric_width(columns[indices[i] as int])) is Some {
        exists|k: int|
            0 <= k < indices.len() && r == indices[k] && (#[trigger] numeric_width(columns[indices[k] as int])) is Some
                && (forall|j: int|
                0 <= j < indices.len() && (#[trigger] numeric_width(columns[indices[j] as int])) is Some ==> (j < k
                    ==> numeric_width(columns[indices[j] as int])->0 > numeric_width(columns[indices[k] as int])->0)
                    && numeric_width(columns[indices[k] as int])->0 <= numeric_width(columns[indices[j] as int])->0)
    } else {
        indices.contains(r) && forall|j: int| 0 <= j < indices.len() ==> r <= #[trigger] indices[j]
    }
}

impl Metadata {
    pub fn table(&self, index: IndexType) -> (res: &TableEntry)
        requires
            index < self@.tables.len(),
        ensures
            res@ == self@.tables[index as int],
    {
        &self.tables[index]
    }

    pub fn tables(&self) -> (res: &[TableEntry])
        ensures
            table_entries_view(res@) == self@.tables,
    {
        self.tables.as_slice()
    }

    pub fn table_index_by_column_indexes(&self, column_indexes: &ColumnSet) -> (res: Option<IndexType>)
        ensures
            res == spec_table_index_by_column_indexes(self@.columns, column_indexes@),
    {
        let mut i: usize = 0;
        assert(self@.columns.subrange(0, self@.columns.len() as int) =~= self@.columns);
        while i < self.columns.len()
            invariant
                i <= self.columns.len(),
                spec_table_index_by_column_indexes(self@.columns, column_indexes@)
                    == spec_table_index_by_column_indexes(self@.columns.subrange(i as int, self@.columns.len() as int), column_indexes@),
            decreases self.columns.len() - i,
        {
            let ghost rest = self@.columns.subrange(i as int, self@.columns.len() as int);
            assert(rest.drop_first() =~= self@.columns.subrange(i + 1, self@.columns.len() as int));
            match &self.columns[i] {
                ColumnEntry::BaseTableColumn { column_index, table_index, .. } => {
                    if column_indexes.contains(column_index) {
                        return Some(*table_index);
                    }
                },
                _ => {},
            }
            i = i + 1;
        }
        None
    }

    pub fn column(&self, index: IndexType) -> (res: &ColumnEntry)
        requires
            index < self@.columns.len(),
        ensures
            res@ == self@.columns[index as int],
    {
        &self.columns[index]
    }

    pub fn columns(&self) -> (res: &[ColumnEntry])
        ensures
            columns_view(res@) == self@.columns,
    {
        self.columns.as_slice()
    }

    pub fn columns_by_table_index(&self, index: IndexType) -> (res: Vec<ColumnEntry>)
        ensures
            columns_view(res@) == spec_columns_by_table_index(self@.columns, index),
    {
        let mut res: Vec<ColumnEntry> = Vec::new();
        let mut i: usize = 0;
        while i < self.columns.len()
            invariant
                i <= self.columns.len(),
                columns_view(res@) == spec_columns_by_table_index(self@.columns.take(i as int), index),
            decreases self.columns.len() - i,
        {
            let ghost before = res@;
            assert(self@.columns.take(i + 1).drop_last() =~= self@.columns.take(i as int));
            match &self.columns[i] {
                ColumnEntry::BaseTableColumn { table_index, .. } => {
                    if index == *table_index {
                        res.push(self.columns[i].clone());
                        assert(columns_view(res@) =~= columns_view(before).push(self@.columns[i as int]));
                    }
                },
                _ => {},
            }
            i = i + 1;
        }
        assert(self@.columns.take(self.columns.len() as int) =~= self@.columns);
        res
    }

    pub fn add_base_table_column(
        &mut self,
        name: String,
        data_type: TableDataType,
        table_index: IndexType,
        path_indices: Option<Vec<IndexType>>,
        leaf_index: Option<IndexType>,
    ) -> (res: IndexType)
        ensures
            final(self)@.wf(),
            res == old(self)@.columns.len(),
            final(self)@.tables == old(self)@.tables,
            final(self)@.columns == old(self)@.columns.push(
                ColumnView::BaseTableColumn {
                    table_index,
                    column_index: res,
                    column_name: name@,
                    data_type: data_type@,
                    path_indices: option_vec_view(path_indices),
                    leaf_index,
                },
            ),
    {
        let column_index = self.columns.len();
        let column_entry = ColumnEntry::BaseTableColumn {
            column_name: name,
            data_type,
            column_index,
            table_index,
            path_indices,
            leaf_index,
        };
        let ghost entry = column_entry@;
        proof {
            use_type_invariant(&*self);
        }
        let mut columns: Vec<ColumnEntry> = Vec::new();
        assert(columns_view(columns@) =~= Seq::empty());
        std::mem::swap(&mut columns, &mut self.columns);
        columns.push(column_entry);
        assert(columns_view(columns@) =~= old(self)@.columns.push(entry));
        self.columns = columns;
        assert(self@.columns =~= old(self)@.columns.push(column_entry@));
        column_index
    }

    /// Registers `table_meta` as a new table, then one base-table column for
    /// each of its fields, walking struct fields depth first: a struct field
    /// yields its own column and then the columns of its subfields, whose
    /// names are the struct's name, `:` and the subfield's name.
    pub fn add_table(
        &mut self,
        catalog: String,
        database: String,
        table_meta: Table,
        table_alias_name: Option<String>,
    ) -> (res: IndexType)
        ensures
            final(self)@.wf(),
            res == old(self)@.tables.len(),
            final(self)@.tables == old(self)@.tables.push(
                TableEntryView {
                    catalog: catalog@,
                    database: database@,
                    name: table_meta@.name,
                    alias_name: option_string_view(table_alias_name),
                    index: res,
                    table: table_meta@,
                },
            ),
            final(self)@.columns == old(self)@.columns + table_columns(table_meta@, res, old(self)@.columns.len()),
    {
        let table_name = table_meta.name().to_owned();
        let table_index = self.tables.len();
        // The entry keeps the table's own name; an alias is kept beside it.
        let table_entry = TableEntry {
            index: table_index,
            name: table_name,
            database,
            catalog,
            table: table_meta.clone(),
            alias_name: table_alias_name,
        };
        let ghost entry = table_entry@;
        proof {
            use_type_invariant(&*self);
        }
        let mut tables: Vec<TableEntry> = Vec::new();
        assert(table_entries_view(tables@) =~= Seq::empty());
        assert(self@.wf());
        assert((MetadataView { tables: table_entries_view(tables@), columns: self@.columns }).wf());
        std::mem::swap(&mut tables, &mut self.tables);
        tables.push(table_entry);
        assert(table_entries_view(tables@) =~= old(self)@.tables.push(entry));
        self.tables = tables;
        assert(self@.tables =~= old(self)@.tables.push(table_entry@));

        let ghost top = schema_items(table_meta@.schema);
        let ghost expected = old(self)@.columns + table_columns(table_meta@, table_index, old(self)@.columns.len());
        let mut fields: VecDeque<(Vec<usize>, TableField)> = VecDeque::new();
        let schema_fields = table_meta.schema().fields();
        let mut i: usize = 0;
        while i < schema_fields.len()
            invariant
                i <= schema_fields.len(),
                fields_view(schema_fields@) == table_meta@.schema,
                top == schema_items(table_meta@.schema),
                pending_view(fields@) =~= top.take(i as int),
            decreases schema_fields.len() - i,
        {
            let ghost before = fields@;
            let mut path: Vec<usize> = Vec::new();
            path.push(i);
            assert(path@ =~= seq![i]);
            fields.push_back((path, schema_fields[i].clone()));
            proof {
                assert(pending_view(fields@) =~= pending_view(before).push(top[i as int]));
                assert(top.take(i + 1) =~= top.take(i as int).push(top[i as int]));
            }
            i = i + 1;
        }
        assert(top.take(schema_fields.len() as int) =~= top);
        proof {
            reveal_strlit(":");
        }

        // build leaf index in DFS order for primitive columns.
        let mut leaf_index: usize = 0;
        while fields.len() > 0
            invariant
                self@.wf(),
                table_index == old(self)@.tables.len(),
                self@.tables == old(self)@.tables.push(table_entry@),
                leaf_index <= self.columns.len(),
                self@.columns + items_columns(pending_view(fields@), table_index, self.columns.len() as nat, leaf_index as nat)
                    == expected,
            decreases items_size(pending_view(fields@)),
        {
            let ghost w = pending_view(fields@);
            let ghost cur = self.columns.len() as nat;
            let ghost leaf = leaf_index as nat;
            let ghost before_cols = self@.columns;
            assert(self.columns.len() == before_cols.len());
            let (indices, field) = fields.pop_front().unwrap();
            let ghost w0 = w[0];
            let ghost rest = w.drop_first();
            assert(pending_view(fields@) =~= rest);
            assert(w0 == PendingField { path: indices@, name: field@.name, data_type: field@.data_type });
            proof {
                lemma_items_size_first(w);
            }
            let path_indices = if indices.len() > 1 {
                let p = indices.clone();
                assert(p@ =~= indices@);
                Some(p)
            } else {
                None
            };

            // A struct inside an array is not looked into.
            if let TableDataType::Tuple { fields_name, fields_type } = field.data_type().remove_nullable() {
                let ghost names = fields_name@.map_values(|s: String| s@);
                let ghost types = crate::types::types_view(fields_type@);
                proof {
                    crate::types::lemma_types_view_index(fields_type@);
                }
                assert(tuple_parts(w0.data_type) == Some((names, types)));
                let ghost kids = children(w0, names, types);
                self.add_base_table_column(
                    field.name().clone(),
                    field.data_type().clone(),
                    table_index,
                    path_indices,
                    None,
                );

                let m = if fields_name.len() <= fields_type.len() {
                    fields_name.len()
                } else {
                    fields_type.len()
                };
                let mut i = fields_type.len();
                let mut j = m;
                while j > 0
                    invariant
                        j <= m,
                        m <= fields_type.len(),
                        m <= fields_name.len(),
                        m == fields_name.len() || m == fields_type.len(),
                        i == j + (fields_type.len() - m),
                        kids == children(w0, names, types),
                        kids.len() == m,
                        names == fields_name@.map_values(|s: String| s@),
                        types == crate::types::types_view(fields_type@),
                        types.len() == fields_type.len(),
                        forall|k: int| 0 <= k < types.len() ==> #[trigger] types[k] == fields_type@[k]@,
                        w0 == (PendingField { path: indices@, name: field@.name, data_type: field@.data_type }),
                        pending_view(fields@) == kids.subrange(j as int, m as int) + rest,
                    decreases j,
                {
                    j = j - 1;
                    i = i - 1;
                    let ghost before = fields@;
                    let mut inner_indices = indices.clone();
                    assert(inner_indices@ =~= indices@);
                    inner_indices.push(i);
                    // create tuple inner field
                    let mut inner_name = field.name().clone();
                    inner_name.append(":");
                    inner_name.append(fields_name[j].as_str());
                    let inner_field = TableField::new(inner_name.as_str(), fields_type[j].clone());
                    fields.push_front((inner_indices, inner_field));
                    proof {
                        reveal_strlit(":");
                        assert(inner_field@.data_type == types[j as int]);
                        assert(inner_name@ =~= field@.name + seq![':'] + names[j as int]);
                        assert(kids[j as int] == PendingField { path: inner_indices@, name: inner_name@, data_type: inner_field@.data_type });
                        assert(pending_view(fields@) =~= seq![kids[j as int]] + pending_view(before));
                        assert(kids.subrange(j as int, m as int) =~= seq![kids[j as int]] + kids.subrange(j + 1, m as int));
                    }
                }
                proof {
                    assert(kids.subrange(0, m as int) =~= kids);
                    assert(pending_view(fields@) =~= kids + rest);
                    lemma_items_columns_append(kids, rest, table_index, cur + 1, leaf);
                    lemma_items_size_append(kids, rest);
                    lemma_children_smaller(w0, names, types);
                    assert(self.columns.len() == self@.columns.len());
                    let fc = field_column(w0, table_index, cur, None);
                    assert(self@.columns == before_cols.push(fc));
                    let kc = items_columns(kids, table_index, cur + 1, leaf);
                    let head = item_columns(w0, table_index, cur, leaf);
                    assert(head == seq![fc] + kc);
                    assert(item_leaves(w0) == items_leaves(kids));
                    assert(items_columns(w, table_index, cur, leaf) == head + items_columns(
                        rest,
                        table_index,
                        cur + head.len(),
                        leaf + item_leaves(w0),
                    ));
                    assert(self@.columns + items_columns(kids + rest, table_index, cur + 1, leaf)
                        =~= before_cols + items_columns(w, table_index, cur, leaf));
                }
            } else {
                assert(tuple_parts(w0.data_type) is None);
                self.add_base_table_column(
                    field.name().clone(),
                    field.data_type().clone(),
                    table_index,
                    path_indices,
                    Some(leaf_index),
                );
                assert(self.columns.len() == self@.columns.len());
                proof {
                    let fc = field_column(w0, table_index, cur, Some(leaf_index));
                    assert(self@.columns == before_cols.push(fc));
                    assert(item_columns(w0, table_index, cur, leaf) == seq![fc]);
                    assert(item_leaves(w0) == 1);
                    assert(items_columns(w, table_index, cur, leaf) == seq![fc] + items_columns(
                        rest,
                        table_index,
                        cur + 1,
                        leaf + 1,
                    ));
                    assert(self@.columns + items_columns(rest, table_index, cur + 1, leaf + 1)
                        =~= before_cols + items_columns(w, table_index, cur, leaf));
                }
                leaf_index = leaf_index + 1;
            }
        }
        assert(pending_view(fields@) =~= Seq::<PendingField>::empty());
        assert(self@.columns =~= expected);
        table_index
    }

    /// find_smallest_column in given indices.
    pub fn find_smallest_column(&self, indices: &[IndexType]) -> (res: IndexType)
        requires
            indices@.len() > 0,
            forall|i: int| 0 <= i < indices@.len() ==> #[trigger] indices@[i] < self@.columns.len(),
        ensures
            is_smallest_column(self@.columns, indices@, res),
    {
        let mut min_index = indices[0];
        let mut i: usize = 1;
        while i < indices.len()
            invariant
                1 <= i <= indices@.len(),
                exists|j: int| 0 <= j < i && indices@[j] == min_index,
                forall|j: int| 0 <= j < i ==> min_index <= #[trigger] indices@[j],
            decreases indices.len() - i,
        {
            if indices[i] < min_index {
                min_index = indices[i];
            }
            i = i + 1;
        }
        let mut smallest_index = min_index;
        let mut smallest_size = usize::MAX;
        let ghost mut best: Option<int> = None;
        let mut i: usize = 0;
        while i < indices.len()
            invariant
                i <= indices@.len(),
                forall|j: int| 0 <= j < indices@.len() ==> #[trigger] indices@[j] < self@.columns.len(),
                indices@.contains(min_index),
                forall|j: int| 0 <= j < indices@.len() ==> min_index <= #[trigger] indices@[j],
                match best {
                    None => smallest_size == usize::MAX && smallest_index == min_index
                        && forall|j: int| 0 <= j < i ==> (#[trigger] numeric_width(self@.columns[indices@[j] as int])) is None,
                    Some(k) => 0 <= k < i && smallest_index == indices@[k]
                        && numeric_width(self@.columns[indices@[k] as int]) == Some(smallest_size as u8)
                        && smallest_size <= 64
                        && forall|j: int|
                        0 <= j < i && (#[trigger] numeric_width(self@.columns[indices@[j] as int])) is Some ==> (j < k
                            ==> numeric_width(self@.columns[indices@[j] as int])->0 > smallest_size)
                            && smallest_size <= numeric_width(self@.columns[indices@[j] as int])->0,
                },
            decreases indices.len() - i,
        {
            let idx = indices[i];
            let entry = self.column(idx);
            if let ColumnEntry::BaseTableColumn { data_type: TableDataType::Number(number_type), .. } = entry {
                assert(numeric_width(self@.columns[indices@[i as int] as int]) == Some(crate::types::spec_bit_width(*number_type)));
                if (number_type.bit_width() as usize) < smallest_size {
                    smallest_size = number_type.bit_width() as usize;
                    smallest_index = idx;
                    proof {
                        best = Some(i as int);
                    }
                }
            } else {
                assert(numeric_width(self@.columns[indices@[i as int] as int]) is None);
            }
            i = i + 1;
        }
        proof {
            match best {
                None => {
                    assert(!exists|j: int| 0 <= j < indices@.len() && (#[trigger] numeric_width(self@.columns[indices@[j] as int])) is Some);
                },
                Some(k) => {
                    assert(numeric_width(self@.columns[indices@[k] as int]) is Some);
                },
            }
        }
        smallest_index
    }

    /// find_smallest_column_by_table_index by given table_index
    pub fn find_smallest_column_by_table_index(&self, table_index: IndexType) -> (res: usize)
        requires
            table_column_indices(self@.columns, table_index).len() > 0,
        ensures
            is_smallest_column(self@.columns, table_column_indices(self@.columns, table_index), res),
    {
        proof {
            use_type_invariant(self);
        }
        let mut indices: Vec<usize> = Vec::new();
        let mut i: usize = 0;
        while i < self.columns.len()
            invariant
                i <= self.columns.len(),
                self@.wf(),
                indices@ == table_column_indices(self@.columns.take(i as int), table_index),
                forall|k: int| 0 <= k < indices@.len() ==> #[trigger] indices@[k] < self@.columns.len(),
            decreases self.columns.len() - i,
        {
            assert(self@.columns.take(i + 1).drop_last() =~= self@.columns.take(i as int));
            match &self.columns[i] {
                ColumnEntry::BaseTableColumn { table_index: index, column_index, .. } => {
                    if *index == table_index {
                        assert(column_index_of(self@.columns[i as int]) == i);
                        indices.push(*column_index);
                    }
                },
                _ => {},
            }
            i = i + 1;
        }
        assert(self@.columns.take(self.columns.len() as int) =~= self@.columns);
        self.find_smallest_column(indices.as_slice())
    }

    pub fn add_derived_column(&mut self, alias: String, data_type: DataType) -> (res: IndexType)
        ensures
            final(self)@.wf(),
            res == old(self)@.columns.len(),
            final(self)@.tables == old(self)@.tables,
            final(self)@.columns == old(self)@.columns.push(
                ColumnView::DerivedColumn { column_index: res, alias: alias@, data_type: data_type@ },
            ),
    {
        let column_index = self.columns.len();
        let column_entry = ColumnEntry::DerivedColumn { column_index, alias, data_type };
        let ghost entry = column_entry@;
        proof {
            use_type_invariant(&*self);
        }
        let mut columns: Vec<ColumnEntry> = Vec::new();
        assert(columns_view(columns@) =~= Seq::empty());
        std::mem::swap(&mut columns, &mut self.columns);
        columns.push(column_entry);
        assert(columns_view(columns@) =~= old(self)@.columns.push(entry));
        self.columns = columns;
        assert(self@.columns =~= old(self)@.columns.push(column_entry@));
        column_index
    }
}


// ---------------------------------------------------------------------------
// Aggregate arguments
// ---------------------------------------------------------------------------

/// A literal of the query language.
#[derive(Debug)]
pub enum Literal {
    UInt64(u64),
    Int64(i64),
    Boolean(bool),
    String(String),
    Null,
}

/// An expression of the query language, as far as the planner inspects it here.
#[derive(Debug)]
pub enum Expr {
    ColumnRef { column: String },
    Literal { lit: Literal },
    FunctionCall { distinct: bool, name: String, args: Vec<Expr> },
}

/// The code of a character with ASCII upper case mapped to lower case.
pub open spec fn ascii_lower(c: char) -> int {
    if 'A' <= c && c <= 'Z' {
        (c as int) + 32
    } else {
        c as int
    }
}

/// Two strings that differ at most in the case of ASCII letters.
pub open spec fn eq_ignore_ascii_case(a: Seq<char>, b: Seq<char>) -> bool {
    &&& a.len() == b.len()
    &&& forall|i: int| 0 <= i < a.len() ==> ascii_lower(#[trigger] a[i]) == ascii_lower(b[i])
}

fn ascii_lower_code(c: char) -> (res: u32)
    ensures
        res as int == ascii_lower(c),
{
    if 'A' <= c && c <= 'Z' {
        (c as u32) + 32
    } else {
        c as u32
    }
}

/// Whether `a` and `b` hold the same characters up to the case of ASCII
/// letters (as `str::eq_ignore_ascii_case` compares them).
fn str_eq_ignore_ascii_case(a: &str, b: &str) -> (res: bool)
    ensures
        res == eq_ignore_ascii_case(a@, b@),
{
    let n = a.unicode_len();
    if n != b.unicode_len() {
        return false;
    }
    let mut i: usize = 0;
    while i < n
        invariant
            n == a@.len(),
            n == b@.len(),
            i <= n,
            forall|j: int| 0 <= j < i ==> ascii_lower(#[trigger] a@[j]) == ascii_lower(b@[j]),
        decreases n - i,
    {
        if ascii_lower_code(a.get_char(i)) != ascii_lower_code(b.get_char(i)) {
            return false;
        }
        i = i + 1;
    }
    true
}

/// An argument that is a literal other than `NULL`.
pub open spec fn is_non_null_literal(e: &Expr) -> bool {
    e matches Expr::Literal { lit } && !(lit is Null)
}

/// Whether a call of aggregate `name` can drop its arguments: it is a
/// `count` (in any case), not `DISTINCT`, and every argument is a non-NULL literal.
pub open spec fn spec_optimize_remove_count_args(name: Seq<char>, distinct: bool, args: Seq<&Expr>) -> bool {
    &&& eq_ignore_ascii_case(name, seq!['c', 'o', 'u', 'n', 't'])
    &&& !distinct
    &&& forall|i: int| 0 <= i < args.len() ==> is_non_null_literal(#[trigger] args[i])
}

pub fn optimize_remove_count_args(name: &str, distinct: bool, args: &[&Expr]) -> (res: bool)
    ensures
        res == spec_optimize_remove_count_args(name@, distinct, args@),
{
    proof {
        reveal_strlit("count");
    }
    if !str_eq_ignore_ascii_case(name, "count") || distinct {
        return false;
    }
    let mut i: usize = 0;
    while i < args.len()
        invariant
            i <= args@.len(),
            forall|j: int| 0 <= j < i ==> is_non_null_literal(#[trigger] args@[j]),
        decreases args.len() - i,
    {
        let all_literal = match args[i] {
            Expr::Literal { lit } => !matches!(lit, Literal::Null),
            _ => false,
        };
        if !all_literal {
            return false;
        }
        i = i + 1;
    }
    true
}


// ---------------------------------------------------------------------------
// Laws
// ---------------------------------------------------------------------------

pub proof fn lemma_filter_map_append<A, B>(a: Seq<A>, b: Seq<A>, f: spec_fn(A) -> Option<B>)
    ensures
        (a + b).filter_map(f) == a.filter_map(f) + b.filter_map(f),
    decreases b.len(),
{
    if b.len() == 0 {
        assert(a + b =~= a);
        assert(b.filter_map(f) =~= Seq::<B>::empty());
        assert(a.filter_map(f) + b.filter_map(f) =~= a.filter_map(f));
    } else {
        assert((a + b).drop_last() =~= a + b.drop_last());
        assert((a + b).last() == b.last());
        lemma_filter_map_append(a, b.drop_last(), f);
        match f(b.last()) {
            Some(x) => {
                assert((a + b).filter_map(f) =~= a.filter_map(f) + b.filter_map(f));
            },
            None => {
                assert((a + b).filter_map(f) =~= a.filter_map(f) + b.filter_map(f));
            },
        }
    }
}

/// The leaf index of a column, if it has one.
pub open spec fn leaf_of(c: ColumnView) -> Option<usize> {
    match c {
        ColumnView::BaseTableColumn { leaf_index, .. } => leaf_index,
        _ => None,
    }
}

/// A column a table contributes: a base-table column of that table, without a
/// leaf index exactly when its type, looking through one `Nullable`, is a struct.
pub open spec fn is_table_column(c: ColumnView, table_index: IndexType) -> bool {
    match c {
        ColumnView::BaseTableColumn { table_index: t, data_type, leaf_index, .. } => t == table_index && (leaf_index
            is None <==> tuple_parts(data_type) is Some),
        _ => false,
    }
}

pub proof fn lemma_item_columns_shape(it: PendingField, table_index: IndexType, col: nat, leaf: nat)
    ensures
        item_columns(it, table_index, col, leaf).filter_map(|c: ColumnView| leaf_of(c)) =~= Seq::new(
            item_leaves(it),
            |i: int| (leaf + i) as usize,
        ),
        forall|k: int|
            0 <= k < item_columns(it, table_index, col, leaf).len() ==> is_table_column(
                #[trigger] item_columns(it, table_index, col, leaf)[k],
                table_index,
            ),
    decreases type_size(it.data_type), 0nat,
{
    let f = |c: ColumnView| leaf_of(c);
    match tuple_parts(it.data_type) {
        Some((names, types)) => {
            lemma_children_smaller(it, names, types);
            let kids = children(it, names, types);
            let fc = field_column(it, table_index, col, None);
            lemma_items_columns_shape(kids, table_index, col + 1, leaf);
            lemma_filter_map_append(seq![fc], items_columns(kids, table_index, col + 1, leaf), f);
            Seq::lemma_filter_map_singleton(fc, f);
        },
        None => {
            let fc = field_column(it, table_index, col, Some(leaf as usize));
            Seq::lemma_filter_map_singleton(fc, f);
        },
    }
}

pub proof fn lemma_items_columns_shape(items: Seq<PendingField>, table_index: IndexType, col: nat, leaf: nat)
    ensures
        items_columns(items, table_index, col, leaf).filter_map(|c: ColumnView| leaf_of(c)) =~= Seq::new(
            items_leaves(items),
            |i: int| (leaf + i) as usize,
        ),
        forall|k: int|
            0 <= k < items_columns(items, table_index, col, leaf).len() ==> is_table_column(
                #[trigger] items_columns(items, table_index, col, leaf)[k],
                table_index,
            ),
    decreases items_size(items), 1nat,
{
    let f = |c: ColumnView| leaf_of(c);
    if items.len() == 0 {
        assert(items_columns(items, table_index, col, leaf) =~= Seq::<ColumnView>::empty());
    } else {
        lemma_items_size_first(items);
        let head = item_columns(items[0], table_index, col, leaf);
        let l0 = item_leaves(items[0]);
        let rest = items_columns(items.drop_first(), table_index, col + head.len(), leaf + l0);
        lemma_item_columns_shape(items[0], table_index, col, leaf);
        lemma_items_columns_shape(items.drop_first(), table_index, col + head.len(), leaf + l0);
        lemma_filter_map_append(head, rest, f);
        assert(items_columns(items, table_index, col, leaf) == head + rest);
        assert forall|k: int| 0 <= k < (head + rest).len() implies is_table_column(
            #[trigger] (head + rest)[k],
            table_index,
        ) by {
            if k < head.len() {
                assert((head + rest)[k] == head[k]);
            } else {
                assert((head + rest)[k] == rest[k - head.len()]);
            }
        }
    }
}

/// Leaf index is the primitive column index in Parquet, constructed in DFS
/// order: the leaf indices of the columns a table contributes are, in column
/// order, 0, 1, 2, ...; every one of those columns belongs to the table; and a
/// column has no leaf index exactly when its type is a struct.
pub proof fn law_table_columns_leaf_order(table: TableView, table_index: IndexType, col: nat)
    ensures
        table_columns(table, table_index, col).filter_map(|c: ColumnView| leaf_of(c)) =~= Seq::new(
            items_leaves(schema_items(table.schema)),
            |i: int| i as usize,
        ),
        forall|k: int|
            0 <= k < table_columns(table, table_index, col).len() ==> is_table_column(
                #[trigger] table_columns(table, table_index, col)[k],
                table_index,
            ),
{
    lemma_items_columns_shape(schema_items(table.schema), table_index, col, 0);
}

/// After a table is added under an index no earlier column names, asking for
/// the columns of that table gives back exactly the columns the table added.
pub proof fn law_columns_of_added_table(before: MetadataView, after: MetadataView, table: TableView, table_index: IndexType)
    requires
        after.columns == before.columns + table_columns(table, table_index, before.columns.len()),
        forall|i: int| 0 <= i < before.columns.len() ==> !is_column_of_table(#[trigger] before.columns[i], table_index),
    ensures
        spec_columns_by_table_index(after.columns, table_index) == table_columns(table, table_index, before.columns.len()),
{
    let f = |c: ColumnView| if is_column_of_table(c, table_index) { Some(c) } else { None };
    let added = table_columns(table, table_index, before.columns.len());
    lemma_filter_map_append(before.columns, added, f);
    lemma_filter_map_none(before.columns, f);
    law_table_columns_leaf_order(table, table_index, before.columns.len());
    lemma_filter_map_all(added, f);
    assert(spec_columns_by_table_index(after.columns, table_index) =~= added);
}

pub proof fn lemma_filter_map_none<A, B>(s: Seq<A>, f: spec_fn(A) -> Option<B>)
    requires
        forall|i: int| 0 <= i < s.len() ==> f(#[trigger] s[i]) is None,
    ensures
        s.filter_map(f) =~= Seq::<B>::empty(),
    decreases s.len(),
{
    if s.len() > 0 {
        assert(f(s[s.len() - 1]) is None);
        lemma_filter_map_none(s.drop_last(), f);
    }
}

pub proof fn lemma_filter_map_all<A>(s: Seq<A>, f: spec_fn(A) -> Option<A>)
    requires
        forall|i: int| 0 <= i < s.len() ==> f(#[trigger] s[i]) == Some(s[i]),
    ensures
        s.filter_map(f) =~= s,
    decreases s.len(),
{
    if s.len() > 0 {
        assert(f(s[s.len() - 1]) == Some(s[s.len() - 1]));
        lemma_filter_map_all(s.drop_last(), f);
        assert(s.drop_last().push(s.last()) =~= s);
    }
}

/// The column `find_smallest_column` picks is one of the given indices.
pub proof fn law_smallest_column_is_given(columns: Seq<ColumnView>, indices: Seq<IndexType>, r: IndexType)
    requires
        is_smallest_column(columns, indices, r),
    ensures
        indices.contains(r),
{
    if exists|i: int| 0 <= i < indices.len() && (#[trigger] numeric_width(columns[indices[i] as int])) is Some {
        let k = choose|k: int|
            0 <= k < indices.len() && r == indices[k] && (#[trigger] numeric_width(columns[indices[k] as int])) is Some
                && (forall|j: int|
                0 <= j < indices.len() && (#[trigger] numeric_width(columns[indices[j] as int])) is Some ==> (j < k
                    ==> numeric_width(columns[indices[j] as int])->0 > numeric_width(columns[indices[k] as int])->0)
                    && numeric_width(columns[indices[k] as int])->0 <= numeric_width(columns[indices[j] as int])->0);
        assert(indices[k] == r);
    }
}


// ---------------------------------------------------------------------------
// Laws on what the operations are for
// ---------------------------------------------------------------------------

/// `c` is a base-table column whose index is in `set`.
pub open spec fn base_in_set(c: ColumnView, set: Set<IndexType>) -> bool {
    c matches ColumnView::BaseTableColumn { column_index, .. } && set.contains(column_index)
}

/// The table a base-table column belongs to.
pub open spec fn table_of(c: ColumnView) -> IndexType {
    match c {
        ColumnView::BaseTableColumn { table_index, .. } => table_index,
        ColumnView::DerivedColumn { .. } => 0,
    }
}

/// The table found for a set of column indices is that of the first
/// base-table column, in column order, whose index is in the set; there is
/// none only when no base-table column's index is in the set.
pub proof fn law_table_index_by_column_indexes(columns: Seq<ColumnView>, set: Set<IndexType>)
    ensures
        (exists|i: int| 0 <= i < columns.len() && base_in_set(#[trigger] columns[i], set)) ==> exists|i: int|
            0 <= i < columns.len() && base_in_set(#[trigger] columns[i], set) && (forall|j: int|
                0 <= j < i ==> !base_in_set(#[trigger] columns[j], set)) && spec_table_index_by_column_indexes(
                columns,
                set,
            ) == Some(table_of(columns[i])),
        (forall|i: int| 0 <= i < columns.len() ==> !base_in_set(#[trigger] columns[i], set))
            ==> spec_table_index_by_column_indexes(columns, set) is None,
    decreases columns.len(),
{
    if columns.len() > 0 {
        let rest = columns.drop_first();
        law_table_index_by_column_indexes(rest, set);
        if base_in_set(columns[0], set) {
            assert(spec_table_index_by_column_indexes(columns, set) == Some(table_of(columns[0])));
        } else {
            assert(spec_table_index_by_column_indexes(columns, set) == spec_table_index_by_column_indexes(rest, set));
            if exists|i: int| 0 <= i < columns.len() && base_in_set(#[trigger] columns[i], set) {
                let i0 = choose|i: int| 0 <= i < columns.len() && base_in_set(#[trigger] columns[i], set);
                assert(rest[i0 - 1] == columns[i0]);
                let i1 = choose|i: int|
                    0 <= i < rest.len() && base_in_set(#[trigger] rest[i], set) && (forall|j: int|
                        0 <= j < i ==> !base_in_set(#[trigger] rest[j], set)) && spec_table_index_by_column_indexes(
                        rest,
                        set,
                    ) == Some(table_of(rest[i]));
                assert(columns[i1 + 1] == rest[i1]);
                assert forall|j: int| 0 <= j < i1 + 1 implies !base_in_set(#[trigger] columns[j], set) by {
                    if j > 0 {
                        assert(columns[j] == rest[j - 1]);
                    }
                }
            }
            assert forall|i: int| 0 <= i < rest.len() && (forall|i2: int| 0 <= i2 < columns.len() ==> !base_in_set(#[trigger] columns[i2], set)) implies !base_in_set(#[trigger] rest[i], set) by {
                assert(rest[i] == columns[i + 1]);
            }
        }
    }
}

/// Every base-table column of a table is a candidate of
/// `find_smallest_column_by_table_index`, nested struct members included, and
/// only those are.
pub proof fn law_table_column_indices(columns: Seq<ColumnView>, table_index: IndexType)
    requires
        forall|i: int| 0 <= i < columns.len() ==> #[trigger] column_index_of(columns[i]) == i,
    ensures
        forall|j: int|
            0 <= j < columns.len() ==> (is_column_of_table(#[trigger] columns[j], table_index)
                <==> table_column_indices(columns, table_index).contains(j as IndexType)),
        forall|k: int|
            0 <= k < table_column_indices(columns, table_index).len() ==> #[trigger] table_column_indices(
                columns,
                table_index,
            )[k] < columns.len() && is_column_of_table(
                columns[table_column_indices(columns, table_index)[k] as int],
                table_index,
            ),
    decreases columns.len(),
{
    if columns.len() > 0 {
        let rest = columns.drop_last();
        let last = columns.last();
        assert forall|i: int| 0 <= i < rest.len() implies #[trigger] column_index_of(rest[i]) == i by {
            assert(rest[i] == columns[i]);
        }
        law_table_column_indices(rest, table_index);
        let r = table_column_indices(rest, table_index);
        let n = columns.len() - 1;
        assert(column_index_of(columns[n]) == n);
        if is_column_of_table(last, table_index) {
            assert(table_column_indices(columns, table_index) == r + seq![column_index_of(last)]);
            let all = r + seq![column_index_of(last)];
            assert forall|j: int| 0 <= j < columns.len() implies (is_column_of_table(#[trigger] columns[j], table_index)
                <==> all.contains(j as IndexType)) by {
                if j < n {
                    assert(columns[j] == rest[j]);
                    if all.contains(j as IndexType) {
                        let q = choose|q: int| 0 <= q < all.len() && all[q] == j as IndexType;
                        if q < r.len() {
                            assert(r[q] == j as IndexType);
                        }
                    }
                    if r.contains(j as IndexType) {
                        let q = choose|q: int| 0 <= q < r.len() && r[q] == j as IndexType;
                        assert(all[q] == j as IndexType);
                    }
                } else {
                    assert(all[r.len() as int] == j as IndexType);
                }
            }
            assert forall|k: int| 0 <= k < all.len() implies #[trigger] all[k] < columns.len() && is_column_of_table(
                columns[all[k] as int],
                table_index,
            ) by {
                if k < r.len() {
                    assert(all[k] == r[k]);
                    assert(columns[r[k] as int] == rest[r[k] as int]);
                }
            }
        } else {
            assert(table_column_indices(columns, table_index) == r);
            assert forall|j: int| 0 <= j < columns.len() implies (is_column_of_table(#[trigger] columns[j], table_index)
                <==> r.contains(j as IndexType)) by {
                if j < n {
                    assert(columns[j] == rest[j]);
                } else {
                    if r.contains(j as IndexType) {
                        let q = choose|q: int| 0 <= q < r.len() && r[q] == j as IndexType;
                        assert(false);
                    }
                }
            }
            assert forall|k: int| 0 <= k < r.len() implies #[trigger] r[k] < columns.len() && is_column_of_table(
                columns[r[k] as int],
                table_index,
            ) by {
                assert(columns[r[k] as int] == rest[r[k] as int]);
            }
        }
    }
}

/// The column `find_smallest_column` picks among candidates that include a
/// numeric one is numeric, and no wider than any numeric candidate.
pub proof fn law_smallest_column_is_narrowest(columns: Seq<ColumnView>, indices: Seq<IndexType>, r: IndexType, p: int)
    requires
        is_smallest_column(columns, indices, r),
        0 <= p < indices.len(),
        numeric_width(columns[indices[p] as int]) is Some,
    ensures
        numeric_width(columns[r as int]) is Some,
        numeric_width(columns[r as int])->0 <= numeric_width(columns[indices[p] as int])->0,
{
    assert(exists|i: int| 0 <= i < indices.len() && (#[trigger] numeric_width(columns[indices[i] as int])) is Some);
    let k = choose|k: int|
        0 <= k < indices.len() && r == indices[k] && (#[trigger] numeric_width(columns[indices[k] as int])) is Some
            && (forall|j: int|
            0 <= j < indices.len() && (#[trigger] numeric_width(columns[indices[j] as int])) is Some ==> (j < k
                ==> numeric_width(columns[indices[j] as int])->0 > numeric_width(columns[indices[k] as int])->0)
                && numeric_width(columns[indices[k] as int])->0 <= numeric_width(columns[indices[j] as int])->0);
    assert(numeric_width(columns[indices[p] as int]) is Some);
}

/// The column `find_smallest_column_by_table_index` picks for a table is a
/// column of that table no wider than any numeric base-table column of it.
pub proof fn law_smallest_column_of_table(m: MetadataView, table_index: IndexType, r: IndexType, j: int)
    requires
        m.wf(),
        is_smallest_column(m.columns, table_column_indices(m.columns, table_index), r),
        0 <= j < m.columns.len(),
        is_column_of_table(m.columns[j], table_index),
        numeric_width(m.columns[j]) is Some,
    ensures
        numeric_width(m.columns[r as int]) is Some,
        numeric_width(m.columns[r as int])->0 <= numeric_width(m.columns[j])->0,
{
    let idx = table_column_indices(m.columns, table_index);
    law_table_column_indices(m.columns, table_index);
    assert(is_column_of_table(m.columns[j], table_index));
    assert(column_index_of(m.columns[j]) == j);
    assert(idx.contains(j as IndexType));
    let p = choose|p: int| 0 <= p < idx.len() && idx[p] == j as IndexType;
    assert(idx[p] as int == j);
    law_smallest_column_is_narrowest(m.columns, idx, r, p);
}


/// The type of the subfield at position `p` of a struct type (looking through
/// one `Nullable`). The positions count from the end of the type list, so
/// when a struct lists fewer names than types, its first types have no
/// subfield.
pub open spec fn subfield_type(t: TypeView, p: usize) -> Option<TypeView> {
    match spec_remove_nullable(t) {
        TypeView::Tuple { fields_name, fields_type } => {
            let m = if fields_name.len() <= fields_type.len() {
                fields_name.len()
            } else {
                fields_type.len()
            };
            let d = fields_type.len() - m;
            if d <= p < fields_type.len() {
                Some(fields_type[p - d])
            } else {
                None
            }
        },
        _ => None,
    }
}

/// The declared type of the field or subfield a schema has at path `p`: its
/// first position picks a field of the schema, each later one a subfield.
pub open spec fn type_at_path(schema: Seq<FieldView>, p: Seq<usize>) -> Option<TypeView>
    decreases p.len(),
{
    if p.len() == 0 {
        None
    } else if p.len() == 1 {
        if p[0] < schema.len() {
            Some(schema[p[0] as int].data_type)
        } else {
            None
        }
    } else {
        match type_at_path(schema, p.drop_last()) {
            Some(t) => subfield_type(t, p.last()),
            None => None,
        }
    }
}

/// A pending field is a field or subfield of `schema`, with its declared type.
pub open spec fn declared_in(schema: Seq<FieldView>, it: PendingField) -> bool {
    it.path.len() >= 1 && type_at_path(schema, it.path) == Some(it.data_type)
}

/// A column that records a path has the declared type of the subfield at that path.
pub open spec fn typed_as_declared(schema: Seq<FieldView>, c: ColumnView) -> bool {
    c matches ColumnView::BaseTableColumn { path_indices: Some(p), data_type, .. } ==> type_at_path(schema, p) == Some(
        data_type,
    )
}

pub proof fn lemma_types_size_bounds(s: Seq<TypeView>)
    ensures
        s.len() <= types_size(s),
        forall|j: int| 0 <= j < s.len() ==> type_size(#[trigger] s[j]) <= types_size(s),
    decreases s.len(),
{
    if s.len() > 0 {
        let rest = s.subrange(1, s.len() as int);
        lemma_types_size_bounds(rest);
        lemma_type_size_pos(s[0]);
        assert forall|j: int| 0 <= j < s.len() implies type_size(#[trigger] s[j]) <= types_size(s) by {
            if j > 0 {
                assert(s[j] == rest[j - 1]);
            }
        }
    }
}

/// The struct parts of a type are smaller than the type.
pub proof fn lemma_tuple_parts_size(t: TypeView)
    ensures
        tuple_parts(t) matches Some((names, types)) ==> types_size(types) < type_size(t),
{
    match t {
        TypeView::Nullable(inner) => {
            assert(type_size(t) == 1 + type_size(*inner));
        },
        _ => {},
    }
}

pub proof fn lemma_item_columns_declared(
    schema: Seq<FieldView>,
    it: PendingField,
    table_index: IndexType,
    col: nat,
    leaf: nat,
)
    requires
        declared_in(schema, it),
        type_size(it.data_type) <= usize::MAX,
    ensures
        forall|k: int|
            0 <= k < item_columns(it, table_index, col, leaf).len() ==> typed_as_declared(
                schema,
                #[trigger] item_columns(it, table_index, col, leaf)[k],
            ),
    decreases type_size(it.data_type), 0nat,
{
    match tuple_parts(it.data_type) {
        Some((names, types)) => {
            lemma_children_smaller(it, names, types);
            let kids = children(it, names, types);
            let m = kids.len() as int;
            let d = types.len() - m;
            lemma_tuple_parts_size(it.data_type);
            lemma_types_size_bounds(types);
            assert forall|j: int| 0 <= j < kids.len() implies declared_in(schema, #[trigger] kids[j])
                && type_size(kids[j].data_type) <= usize::MAX by {
                let c = kids[j];
                assert(c.path.drop_last() =~= it.path);
                assert(c.path.last() == (j + d) as usize);
                assert(subfield_type(it.data_type, (j + d) as usize) == Some(types[j]));
            }
            lemma_items_columns_declared(schema, kids, table_index, col + 1, leaf);
            let fc = field_column(it, table_index, col, None);
            let rest = items_columns(kids, table_index, col + 1, leaf);
            assert forall|k: int| 0 <= k < (seq![fc] + rest).len() implies typed_as_declared(
                schema,
                #[trigger] (seq![fc] + rest)[k],
            ) by {
                if k > 0 {
                    assert((seq![fc] + rest)[k] == rest[k - 1]);
                }
            }
        },
        None => {},
    }
}

pub proof fn lemma_items_columns_declared(
    schema: Seq<FieldView>,
    items: Seq<PendingField>,
    table_index: IndexType,
    col: nat,
    leaf: nat,
)
    requires
        forall|i: int|
            0 <= i < items.len() ==> declared_in(schema, #[trigger] items[i]) && type_size(items[i].data_type)
                <= usize::MAX,
    ensures
        forall|k: int|
            0 <= k < items_columns(items, table_index, col, leaf).len() ==> typed_as_declared(
                schema,
                #[trigger] items_columns(items, table_index, col, leaf)[k],
            ),
    decreases items_size(items), 1nat,
{
    if items.len() > 0 {
        lemma_items_size_first(items);
        let head = item_columns(items[0], table_index, col, leaf);
        let rest = items_columns(items.drop_first(), table_index, col + head.len(), leaf + item_leaves(items[0]));
        lemma_item_columns_declared(schema, items[0], table_index, col, leaf);
        assert forall|i: int| 0 <= i < items.drop_first().len() implies declared_in(
            schema,
            #[trigger] items.drop_first()[i],
        ) && type_size(items.drop_first()[i].data_type) <= usize::MAX by {
            assert(items.drop_first()[i] == items[i + 1]);
        }
        lemma_items_columns_declared(schema, items.drop_first(), table_index, col + head.len(), leaf + item_leaves(items[0]));
        assert(items_columns(items, table_index, col, leaf) == head + rest);
        assert forall|k: int| 0 <= k < (head + rest).len() implies typed_as_declared(schema, #[trigger] (head + rest)[k]) by {
            if k < head.len() {
                assert((head + rest)[k] == head[k]);
            } else {
                assert((head + rest)[k] == rest[k - head.len()]);
            }
        }
    }
}

/// `c` is the column of pending field `it`: its name, type and path.
pub open spec fn is_column_of_field(c: ColumnView, it: PendingField) -> bool {
    &&& c matches ColumnView::BaseTableColumn { column_name, data_type, path_indices, .. }
    &&& c->BaseTableColumn_column_name == it.name
    &&& c->BaseTableColumn_data_type == it.data_type
    &&& c->BaseTableColumn_path_indices == (if it.path.len() > 1 {
        Some(it.path)
    } else {
        None
    })
}

/// `c` is a top-level column with the name and the type of field `f`.
pub open spec fn is_column_of_schema_field(c: ColumnView, f: FieldView) -> bool {
    &&& c is BaseTableColumn
    &&& c->BaseTableColumn_column_name == f.name
    &&& c->BaseTableColumn_data_type == f.data_type
    &&& c->BaseTableColumn_path_indices is None
}

/// The field column of every pending field appears among the columns listed.
pub proof fn lemma_items_columns_contain_fields(items: Seq<PendingField>, table_index: IndexType, col: nat, leaf: nat)
    ensures
        forall|i: int|
            #![trigger items[i]]
            0 <= i < items.len() ==> exists|k: int|
                0 <= k < items_columns(items, table_index, col, leaf).len() && is_column_of_field(
                    #[trigger] items_columns(items, table_index, col, leaf)[k],
                    items[i],
                ),
    decreases items.len(),
{
    if items.len() > 0 {
        lemma_items_size_first(items);
        let head = item_columns(items[0], table_index, col, leaf);
        let rest = items_columns(items.drop_first(), table_index, col + head.len(), leaf + item_leaves(items[0]));
        lemma_items_columns_contain_fields(items.drop_first(), table_index, col + head.len(), leaf + item_leaves(items[0]));
        let all = items_columns(items, table_index, col, leaf);
        assert(all == head + rest);
        assert forall|i: int| #![trigger items[i]] 0 <= i < items.len() implies exists|k: int|
            0 <= k < all.len() && is_column_of_field(#[trigger] all[k], items[i]) by {
            if i == 0 {
                match tuple_parts(items[0].data_type) {
                    Some((names, types)) => {
                        assert(head[0] == field_column(items[0], table_index, col, None));
                    },
                    None => {
                        assert(head[0] == field_column(items[0], table_index, col, Some(leaf as usize)));
                    },
                }
                assert(all[0] == head[0]);
                assert(is_column_of_field(all[0], items[0]));
            } else {
                assert(items.drop_first()[i - 1] == items[i]);
                let k2 = choose|k: int| 0 <= k < rest.len() && is_column_of_field(#[trigger] rest[k], items.drop_first()[i - 1]);
                assert(all[head.len() + k2] == rest[k2]);
            }
        }
    }
}

/// Each column a table contributes keeps the declared type of its field:
/// every field of the schema has a column with its name and type (and no
/// path), and a column of a subfield has the type that subfield is declared
/// with at its path.
pub proof fn law_table_columns_keep_declared_types(table: TableView, table_index: IndexType, col: nat)
    requires
        table.schema.len() <= usize::MAX,
        forall|i: int| 0 <= i < table.schema.len() ==> type_size(#[trigger] table.schema[i].data_type) <= usize::MAX,
    ensures
        forall|i: int|
            #![trigger table.schema[i]]
            0 <= i < table.schema.len() ==> exists|k: int|
                0 <= k < table_columns(table, table_index, col).len() && is_column_of_schema_field(
                    #[trigger] table_columns(table, table_index, col)[k],
                    table.schema[i],
                ),
        forall|k: int|
            0 <= k < table_columns(table, table_index, col).len() ==> typed_as_declared(
                table.schema,
                #[trigger] table_columns(table, table_index, col)[k],
            ),
{
    let items = schema_items(table.schema);
    let cols = table_columns(table, table_index, col);
    assert forall|i: int| 0 <= i < items.len() implies declared_in(table.schema, #[trigger] items[i])
        && type_size(items[i].data_type) <= usize::MAX by {
        assert(items[i].path == seq![i as usize]);
        assert(type_size(table.schema[i].data_type) <= usize::MAX);
    }
    lemma_items_columns_declared(table.schema, items, table_index, col, 0);
    lemma_items_columns_contain_fields(items, table_index, col, 0);
    assert forall|i: int| #![trigger table.schema[i]] 0 <= i < table.schema.len() implies exists|k: int|
        0 <= k < cols.len() && is_column_of_schema_field(#[trigger] cols[k], table.schema[i]) by {
        assert(items[i].path.len() == 1);
        let k = choose|k: int| 0 <= k < cols.len() && is_column_of_field(#[trigger] cols[k], items[i]);
        assert(is_column_of_schema_field(cols[k], table.schema[i]));
    }
}

} // verus!
