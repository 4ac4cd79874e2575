//! The library's own picture of Arrow schemas and values: plain data that the
//! renderers read.

use vstd::prelude::*;

verus! {

/// Resolution of a time or timestamp.
#[derive(Clone, Copy, PartialEq, Eq, Structural, Debug)]
pub enum TimeUnit {
    Second,
    Millisecond,
    Microsecond,
    Nanosecond,
}

/// Layout of a union type.
#[derive(Clone, Copy, PartialEq, Eq, Structural, Debug)]
pub enum UnionMode {
    Sparse,
    Dense,
}

/// A named column or child of a nested type.
pub struct Field {
    pub name: String,
    pub nullable: bool,
    pub data_type: DataType,
    /// The type as Arrow writes it (its `Display`).
    pub type_text: String,
}

/// The parts of a field's type that the renderers look at.
pub enum DataType {
    Date32,
    Date64,
    Time32(TimeUnit),
    Time64(TimeUnit),
    /// A timestamp, and whether it carries a time zone.
    Timestamp(TimeUnit, bool),
    List(Box<Field>),
    LargeList(Box<Field>),
    ListView(Box<Field>),
    LargeListView(Box<Field>),
    FixedSizeList(Box<Field>, i32),
    Struct(Vec<Field>),
    /// A map's entries field, and whether its keys are sorted.
    MapOf(Box<Field>, bool),
    Union(Vec<Field>, UnionMode),
    /// Run ends and values.
    RunEndEncoded(Box<Field>, Box<Field>),
    /// Any other type: only its `type_text` matters.
    Other,
}

/// A floating-point value as it is written: the three special values, or the
/// JSON number text of a finite one.
pub enum FloatValue {
    NaN,
    PosInf,
    NegInf,
    Finite(String),
}

/// One value of a column, with the data that rendering it needs.
pub enum Value {
    Null,
    Bool(bool),
    /// Any signed integer type.
    Int(i64),
    /// Any unsigned integer type.
    UInt(u64),
    Float(FloatValue),
    /// A UTF-8 string of any string type.
    Text(String),
    /// Bytes of any binary type.
    Binary(Vec<u8>),
    /// A 32, 64 or 128-bit decimal: unscaled value, precision, scale.
    Decimal(i128, u8, i8),
    /// A 256-bit decimal: high 128 bits (signed), low 128 bits, precision, scale.
    Decimal256(i128, u128, u8, i8),
    /// Days since the epoch.
    Date32(i32),
    /// Milliseconds since the epoch.
    Date64(i64),
    /// Time of day in the given unit (seconds and milliseconds come from 32-bit
    /// columns, micro- and nanoseconds from 64-bit ones).
    Time(i64, TimeUnit),
    /// Instant in the given unit, and whether the column has a time zone.
    Timestamp(i64, TimeUnit, bool),
    List(Vec<Value>),
    Struct(Vec<Member>),
    /// Entries, and whether the key column has a string type.
    MapOf(Vec<Entry>, bool),
    /// A value of a type that cannot be rendered; carries the type's text.
    Unsupported(String),
    /// A column whose array does not match its declared type; carries the
    /// array's type text.
    Mismatch(String),
}

/// A named member of a struct value.
pub struct Member {
    pub name: String,
    pub value: Value,
}

/// One key/value entry of a map value.
pub struct Entry {
    pub key: Value,
    pub value: Value,
}

/// A batch of rows: its fields, and one column of values per field.
pub struct Batch {
    pub fields: Vec<Field>,
    pub columns: Vec<Vec<Value>>,
    pub num_rows: usize,
}

impl Batch {
    /// Every field has a column, and every column has `num_rows` values.
    pub open spec fn wf(&self) -> bool {
        &&& self.columns@.len() == self.fields@.len()
        &&& forall|c: int|
            0 <= c < self.columns@.len() ==> (#[trigger] self.columns@[c])@.len() == self.num_rows
    }
}

} // verus!
