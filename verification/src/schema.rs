//! Column types and schemas.

use vstd::prelude::*;

verus! {

/// A numeric width that a directive can request for a column.
#[derive(Clone, Copy, Debug, PartialEq, Eq, Structural)]
pub enum NumericType {
    Int32,
    Int64,
    Float32,
    Float64,
}

/// The type of a column: what inference can report, and what a directive can
/// narrow or widen it to.
#[derive(Clone, Copy, Debug, PartialEq, Eq, Structural)]
pub enum ColumnType {
    Null,
    Boolean,
    Int32,
    Int64,
    Float32,
    Float64,
    Date32,
    TimestampSecond,
    TimestampMillisecond,
    TimestampMicrosecond,
    TimestampNanosecond,
    Utf8,
}

/// The column type that stands for a numeric width.
pub open spec fn column_type_of(t: NumericType) -> ColumnType {
    match t {
        NumericType::Int32 => ColumnType::Int32,
        NumericType::Int64 => ColumnType::Int64,
        NumericType::Float32 => ColumnType::Float32,
        NumericType::Float64 => ColumnType::Float64,
    }
}

impl NumericType {
    /// Whether this is one of the two integer widths.
    pub open spec fn is_int(self) -> bool {
        self == NumericType::Int32 || self == NumericType::Int64
    }

    /// The column type of this width.
    pub fn column_type(self) -> (r: ColumnType)
        ensures
            r == column_type_of(self),
    {
        match self {
            NumericType::Int32 => ColumnType::Int32,
            NumericType::Int64 => ColumnType::Int64,
            NumericType::Float32 => ColumnType::Float32,
            NumericType::Float64 => ColumnType::Float64,
        }
    }
}

/// One column of a schema.
#[derive(Debug)]
pub struct Field {
    pub name: String,
    pub data_type: ColumnType,
    pub nullable: bool,
}

/// What a field is, with its name as a sequence of characters.
pub struct FieldView {
    pub name: Seq<char>,
    pub data_type: ColumnType,
    pub nullable: bool,
}

impl View for Field {
    type V = FieldView;

    open spec fn view(&self) -> FieldView {
        FieldView { name: self.name@, data_type: self.data_type, nullable: self.nullable }
    }
}

impl Field {
    /// A field of the given name, type and nullability.
    pub fn new(name: &str, data_type: ColumnType, nullable: bool) -> (f: Field)
        ensures
            f@ == (FieldView { name: name@, data_type, nullable }),
    {
        Field { name: name.to_owned(), data_type, nullable }
    }
}

/// The fields of a schema, one after the other.
pub open spec fn fields_view(fields: Seq<Field>) -> Seq<FieldView> {
    Seq::new(fields.len(), |i: int| fields[i]@)
}

/// An ordered list of fields.
#[derive(Debug)]
pub struct Schema {
    pub fields: Vec<Field>,
}

impl View for Schema {
    type V = Seq<FieldView>;

    open spec fn view(&self) -> Seq<FieldView> {
        fields_view(self.fields@)
    }
}

impl Schema {
    /// The schema of the given fields, in their order.
    pub fn new(fields: Vec<Field>) -> (s: Schema)
        ensures
            s.fields == fields,
    {
        Schema { fields }
    }
}

} // verus!
