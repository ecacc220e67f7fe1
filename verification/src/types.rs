//! Column types and table schemas, as the planner and the storage layer see them.
use vstd::prelude::*;

verus! {

/// The numeric column types.
#[derive(Clone, Copy, Debug, PartialEq, Eq, Structural)]
pub enum NumberDataType {
    UInt8,
    UInt16,
    UInt32,
    UInt64,
    Int8,
    Int16,
    Int32,
    Int64,
    Float32,
    Float64,
}

/// Width in bits of a value of each numeric type.
pub open spec fn spec_bit_width(n: NumberDataType) -> u8 {
    match n {
        NumberDataType::UInt8 | NumberDataType::Int8 => 8,
        NumberDataType::UInt16 | NumberDataType::Int16 => 16,
        NumberDataType::UInt32 | NumberDataType::Int32 | NumberDataType::Float32 => 32,
        NumberDataType::UInt64 | NumberDataType::Int64 | NumberDataType::Float64 => 64,
    }
}

/// The width of each numeric type is the size in bits of a value of it:
/// eight times the byte size of the Rust integer of that type, and for the
/// IEEE floating-point types, the width of the integer of equal size.
pub proof fn law_bit_width_is_value_size()
    ensures
        spec_bit_width(NumberDataType::UInt8) == 8 * vstd::layout::size_of::<u8>(),
        spec_bit_width(NumberDataType::UInt16) == 8 * vstd::layout::size_of::<u16>(),
        spec_bit_width(NumberDataType::UInt32) == 8 * vstd::layout::size_of::<u32>(),
        spec_bit_width(NumberDataType::UInt64) == 8 * vstd::layout::size_of::<u64>(),
        spec_bit_width(NumberDataType::Int8) == 8 * vstd::layout::size_of::<i8>(),
        spec_bit_width(NumberDataType::Int16) == 8 * vstd::layout::size_of::<i16>(),
        spec_bit_width(NumberDataType::Int32) == 8 * vstd::layout::size_of::<i32>(),
        spec_bit_width(NumberDataType::Int64) == 8 * vstd::layout::size_of::<i64>(),
        spec_bit_width(NumberDataType::Float32) == spec_bit_width(NumberDataType::Int32),
        spec_bit_width(NumberDataType::Float64) == spec_bit_width(NumberDataType::Int64),
{
    broadcast use vstd::layout::layout_of_primitives;
}

impl NumberDataType {
    /// Width in bits of a value of this type.
    pub fn bit_width(&self) -> (w: u8)
        ensures
            w == spec_bit_width(*self),
    {
        match self {
            NumberDataType::UInt8 | NumberDataType::Int8 => 8,
            NumberDataType::UInt16 | NumberDataType::Int16 => 16,
            NumberDataType::UInt32 | NumberDataType::Int32 | NumberDataType::Float32 => 32,
            NumberDataType::UInt64 | NumberDataType::Int64 | NumberDataType::Float64 => 64,
        }
    }
}

/// The type of a column stored in a table.
#[derive(Debug)]
pub enum TableDataType {
    Null,
    EmptyArray,
    Boolean,
    String,
    Number(NumberDataType),
    Timestamp,
    Date,
    Nullable(Box<TableDataType>),
    Array(Box<TableDataType>),
    Tuple { fields_name: Vec<String>, fields_type: Vec<TableDataType> },
    Variant,
}

/// The type of a column computed by the planner; it has the same shape as a stored type.
pub type DataType = TableDataType;

/// The mathematical value of a [`TableDataType`]: names become character sequences.
pub enum TypeView {
    Null,
    EmptyArray,
    Boolean,
    String,
    Number(NumberDataType),
    Timestamp,
    Date,
    Nullable(Box<TypeView>),
    Array(Box<TypeView>),
    Tuple { fields_name: Seq<Seq<char>>, fields_type: Seq<TypeView> },
    Variant,
}

pub open spec fn type_view(t: TableDataType) -> TypeView
    decreases t,
{
    match t {
        TableDataType::Null => TypeView::Null,
        TableDataType::EmptyArray => TypeView::EmptyArray,
        TableDataType::Boolean => TypeView::Boolean,
        TableDataType::String => TypeView::String,
        TableDataType::Number(n) => TypeView::Number(n),
        TableDataType::Timestamp => TypeView::Timestamp,
        TableDataType::Date => TypeView::Date,
        TableDataType::Nullable(inner) => TypeView::Nullable(Box::new(type_view(*inner))),
        TableDataType::Array(inner) => TypeView::Array(Box::new(type_view(*inner))),
        TableDataType::Tuple { fields_name, fields_type } => TypeView::Tuple {
            fields_name: fields_name@.map_values(|s: String| s@),
            fields_type: types_view(fields_type@),
        },
        TableDataType::Variant => TypeView::Variant,
    }
}

pub open spec fn types_view(s: Seq<TableDataType>) -> Seq<TypeView>
    decreases s,
{
    if s.len() == 0 {
        Seq::empty()
    } else {
        seq![type_view(s[0])] + types_view(s.subrange(1, s.len() as int))
    }
}

impl View for TableDataType {
    type V = TypeView;

    open spec fn view(&self) -> TypeView {
        type_view(*self)
    }
}

pub proof fn lemma_types_view_index(s: Seq<TableDataType>)
    ensures
        types_view(s).len() == s.len(),
        forall|i: int| 0 <= i < s.len() ==> #[trigger] types_view(s)[i] == type_view(s[i]),
    decreases s.len(),
{
    if s.len() > 0 {
        lemma_types_view_index(s.subrange(1, s.len() as int));
    }
}

/// A type with one level of `Nullable` taken off.
pub open spec fn spec_remove_nullable(t: TypeView) -> TypeView {
    match t {
        TypeView::Nullable(inner) => *inner,
        _ => t,
    }
}

impl Clone for TableDataType {
    fn clone(&self) -> (res: Self)
        ensures
            res@ == self@,
        decreases self,
    {
        match self {
            TableDataType::Null => TableDataType::Null,
            TableDataType::EmptyArray => TableDataType::EmptyArray,
            TableDataType::Boolean => TableDataType::Boolean,
            TableDataType::String => TableDataType::String,
            TableDataType::Number(n) => TableDataType::Number(*n),
            TableDataType::Timestamp => TableDataType::Timestamp,
            TableDataType::Date => TableDataType::Date,
            TableDataType::Nullable(inner) => TableDataType::Nullable(Box::new((**inner).clone())),
            TableDataType::Array(inner) => TableDataType::Array(Box::new((**inner).clone())),
            TableDataType::Tuple { fields_name, fields_type } => {
                let names = fields_name.clone();
                assert(names@.map_values(|s: String| s@) =~= fields_name@.map_values(|s: String| s@));
                let mut types: Vec<TableDataType> = Vec::new();
                let n = fields_type.len();
                let mut i: usize = 0;
                while i < n
                    invariant
                        n == fields_type.len(),
                        i <= n,
                        *self == (TableDataType::Tuple { fields_name: *fields_name, fields_type: *fields_type }),
                        types.len() == i,
                        forall|j: int| 0 <= j < i ==> #[trigger] type_view(types@[j]) == type_view(fields_type@[j]),
                    decreases n - i,
                {
                    proof {
                        assert(decreases_to!(*self => self->fields_type));
                        assert(decreases_to!(*fields_type => fields_type@));
                        assert(decreases_to!(fields_type@ => fields_type@[i as int]));
                    }
                    let t = fields_type[i].clone();
                    types.push(t);
                    i = i + 1;
                }
                proof {
                    lemma_types_view_index(types@);
                    lemma_types_view_index(fields_type@);
                    assert(types_view(types@) =~= types_view(fields_type@));
                }
                TableDataType::Tuple { fields_name: names, fields_type: types }
            },
            TableDataType::Variant => TableDataType::Variant,
        }
    }
}

impl TableDataType {
    /// This type with one level of `Nullable` taken off.
    pub fn remove_nullable(&self) -> (res: TableDataType)
        ensures
            res@ == spec_remove_nullable(self@),
    {
        match self {
            TableDataType::Nullable(inner) => (**inner).clone(),
            _ => self.clone(),
        }
    }
}


/// The mathematical value of a [`TableField`].
pub struct FieldView {
    pub name: Seq<char>,
    pub data_type: TypeView,
}

/// A named column of a table schema.
#[derive(Debug)]
pub struct TableField {
    name: String,
    data_type: TableDataType,
}

impl View for TableField {
    type V = FieldView;

    closed spec fn view(&self) -> FieldView {
        FieldView { name: self.name@, data_type: self.data_type@ }
    }
}

impl Clone for TableField {
    fn clone(&self) -> (res: Self)
        ensures
            res@ == self@,
    {
        TableField { name: self.name.clone(), data_type: self.data_type.clone() }
    }
}

impl TableField {
    pub fn new(name: &str, data_type: TableDataType) -> (res: TableField)
        ensures
            res@ == (FieldView { name: name@, data_type: data_type@ }),
    {
        TableField { name: name.to_owned(), data_type }
    }

    pub fn name(&self) -> (res: &String)
        ensures
            res@ == self@.name,
    {
        &self.name
    }

    pub fn data_type(&self) -> (res: &TableDataType)
        ensures
            res@ == self@.data_type,
    {
        &self.data_type
    }
}

pub open spec fn fields_view(fields: Seq<TableField>) -> Seq<FieldView> {
    fields.map_values(|f: TableField| f@)
}

/// The fields of a table, in order.
#[derive(Debug)]
pub struct TableSchema {
    fields: Vec<TableField>,
}

impl View for TableSchema {
    type V = Seq<FieldView>;

    closed spec fn view(&self) -> Seq<FieldView> {
        fields_view(self.fields@)
    }
}

impl Clone for TableSchema {
    fn clone(&self) -> (res: Self)
        ensures
            res@ == self@,
    {
        TableSchema { fields: clone_fields(&self.fields) }
    }
}

/// Clones each field of `fields`, in order.
pub fn clone_fields(fields: &Vec<TableField>) -> (res: Vec<TableField>)
    ensures
        fields_view(res@) == fields_view(fields@),
{
    let mut res: Vec<TableField> = Vec::new();
    let mut i: usize = 0;
    while i < fields.len()
        invariant
            i <= fields.len(),
            res.len() == i,
            forall|j: int| 0 <= j < i ==> #[trigger] res@[j]@ == fields@[j]@,
        decreases fields.len() - i,
    {
        res.push(fields[i].clone());
        i = i + 1;
    }
    assert(fields_view(res@) =~= fields_view(fields@));
    res
}

impl TableSchema {
    pub fn new(fields: Vec<TableField>) -> (res: TableSchema)
        ensures
            res@ == fields_view(fields@),
    {
        TableSchema { fields }
    }

    pub fn fields(&self) -> (res: &Vec<TableField>)
        ensures
            fields_view(res@) == self@,
    {
        &self.fields
    }

    pub fn num_fields(&self) -> (res: usize)
        ensures
            res == self@.len(),
    {
        self.fields.len()
    }

    /// Position of the first field named `name`.
    pub fn index_of(&self, name: &str) -> (res: Option<usize>)
        ensures
            match res {
                Some(i) => i < self@.len() && self@[i as int].name == name@
                    && forall|j: int| 0 <= j < i ==> self@[j].name != name@,
                None => forall|j: int| 0 <= j < self@.len() ==> self@[j].name != name@,
            },
    {
        let wanted = name.to_owned();
        let mut i: usize = 0;
        while i < self.fields.len()
            invariant
                i <= self.fields.len(),
                wanted@ == name@,
                forall|j: int| 0 <= j < i ==> self@[j].name != name@,
            decreases self.fields.len() - i,
        {
            if self.fields[i].name == wanted {
                return Some(i);
            }
            i = i + 1;
        }
        None
    }
}

} // verus!
