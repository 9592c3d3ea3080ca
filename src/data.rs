use vstd::prelude::*;

verus! {

/// Identifier of one persisted object: the row key that the backend assigned.
#[derive(Clone, Copy, PartialEq, Eq, Structural, Debug, Hash)]
pub struct ObjectId(pub i64);

impl ObjectId {
    /// The raw key.
    pub fn into_i64(&self) -> (r: i64)
        ensures
            r == self.0,
    {
        self.0
    }
}

impl From<i64> for ObjectId {
    fn from(value: i64) -> (r: ObjectId)
        ensures
            r == ObjectId(value),
    {
        ObjectId(value)
    }
}

impl vstd::std_specs::convert::FromSpecImpl<i64> for ObjectId {
    open spec fn obeys_from_spec() -> bool {
        true
    }

    open spec fn from_spec(v: i64) -> ObjectId {
        ObjectId(v)
    }
}

} // verus!

verus! {

/// The scalar type of one column.
#[derive(Clone, Copy, PartialEq, Eq, Structural, Debug)]
pub enum DataType {
    String,
    Bytes,
    Int64,
    Float64,
    Bool,
}

/// A Rust type that maps onto one scalar column type.
pub trait ToDataType {
    spec fn spec_data_type() -> DataType;

    fn data_type() -> (r: DataType)
        ensures
            r == Self::spec_data_type(),
    ;
}

impl ToDataType for String {
    open spec fn spec_data_type() -> DataType {
        DataType::String
    }

    fn data_type() -> (r: DataType) {
        DataType::String
    }
}

impl ToDataType for Vec<u8> {
    open spec fn spec_data_type() -> DataType {
        DataType::Bytes
    }

    fn data_type() -> (r: DataType) {
        DataType::Bytes
    }
}

impl ToDataType for i64 {
    open spec fn spec_data_type() -> DataType {
        DataType::Int64
    }

    fn data_type() -> (r: DataType) {
        DataType::Int64
    }
}

impl ToDataType for bool {
    open spec fn spec_data_type() -> DataType {
        DataType::Bool
    }

    fn data_type() -> (r: DataType) {
        DataType::Bool
    }
}

/// One cell of a row. A 64-bit float travels as its IEEE 754 bit pattern, so
/// that the value round-trips bit for bit.
#[derive(Clone, PartialEq, Eq, Debug)]
pub enum Value {
    String(String),
    Bytes(Vec<u8>),
    Int64(i64),
    Float64(u64),
    Bool(bool),
}

impl Value {
    /// The column type that this cell holds.
    pub open spec fn spec_data_type(&self) -> DataType {
        match self {
            Value::String(_) => DataType::String,
            Value::Bytes(_) => DataType::Bytes,
            Value::Int64(_) => DataType::Int64,
            Value::Float64(_) => DataType::Float64,
            Value::Bool(_) => DataType::Bool,
        }
    }

    pub fn data_type(&self) -> (r: DataType)
        ensures
            r == self.spec_data_type(),
    {
        match self {
            Value::String(_) => DataType::String,
            Value::Bytes(_) => DataType::Bytes,
            Value::Int64(_) => DataType::Int64,
            Value::Float64(_) => DataType::Float64,
            Value::Bool(_) => DataType::Bool,
        }
    }

    /// The text of a text cell.
    pub open spec fn spec_into_string(self) -> String {
        self->String_0
    }

    #[verifier::when_used_as_spec(spec_into_string)]
    pub fn into_string(self) -> (r: String)
        requires
            self is String,
        ensures
            self == Value::String(r),
            r == self.spec_into_string(),
    {
        match self {
            Value::String(x) => x,
            _ => { proof { assert(false); } String::new() },
        }
    }

    /// The bytes of a byte-sequence cell.
    pub open spec fn spec_into_bytes(self) -> Vec<u8> {
        self->Bytes_0
    }

    #[verifier::when_used_as_spec(spec_into_bytes)]
    pub fn into_bytes(self) -> (r: Vec<u8>)
        requires
            self is Bytes,
        ensures
            self == Value::Bytes(r),
            r == self.spec_into_bytes(),
    {
        match self {
            Value::Bytes(x) => x,
            _ => { proof { assert(false); } Vec::new() },
        }
    }

    /// The integer of an integer cell.
    pub open spec fn spec_into_i64(self) -> i64 {
        self->Int64_0
    }

    #[verifier::when_used_as_spec(spec_into_i64)]
    pub fn into_i64(self) -> (r: i64)
        requires
            self is Int64,
        ensures
            self == Value::Int64(r),
            r == self.spec_into_i64(),
    {
        match self {
            Value::Int64(x) => x,
            _ => { proof { assert(false); } 0 },
        }
    }

    /// The bit pattern of a float cell.
    pub open spec fn spec_into_f64_bits(self) -> u64 {
        self->Float64_0
    }

    #[verifier::when_used_as_spec(spec_into_f64_bits)]
    pub fn into_f64_bits(self) -> (r: u64)
        requires
            self is Float64,
        ensures
            self == Value::Float64(r),
            r == self.spec_into_f64_bits(),
    {
        match self {
            Value::Float64(x) => x,
            _ => { proof { assert(false); } 0 },
        }
    }

    /// The flag of a boolean cell.
    pub open spec fn spec_into_bool(self) -> bool {
        self->Bool_0
    }

    #[verifier::when_used_as_spec(spec_into_bool)]
    pub fn into_bool(self) -> (r: bool)
        requires
            self is Bool,
        ensures
            self == Value::Bool(r),
            r == self.spec_into_bool(),
    {
        match self {
            Value::Bool(x) => x,
            _ => { proof { assert(false); } false },
        }
    }
}

impl From<String> for Value {
    fn from(value: String) -> (r: Value) {
        Value::String(value)
    }
}

impl vstd::std_specs::convert::FromSpecImpl<String> for Value {
    open spec fn obeys_from_spec() -> bool {
        true
    }

    open spec fn from_spec(v: String) -> Value {
        Value::String(v)
    }
}

impl From<Vec<u8>> for Value {
    fn from(value: Vec<u8>) -> (r: Value) {
        Value::Bytes(value)
    }
}

impl vstd::std_specs::convert::FromSpecImpl<Vec<u8>> for Value {
    open spec fn obeys_from_spec() -> bool {
        true
    }

    open spec fn from_spec(v: Vec<u8>) -> Value {
        Value::Bytes(v)
    }
}

impl From<i64> for Value {
    fn from(value: i64) -> (r: Value) {
        Value::Int64(value)
    }
}

impl vstd::std_specs::convert::FromSpecImpl<i64> for Value {
    open spec fn obeys_from_spec() -> bool {
        true
    }

    open spec fn from_spec(v: i64) -> Value {
        Value::Int64(v)
    }
}

impl From<bool> for Value {
    fn from(value: bool) -> (r: Value) {
        Value::Bool(value)
    }
}

impl vstd::std_specs::convert::FromSpecImpl<bool> for Value {
    open spec fn obeys_from_spec() -> bool {
        true
    }

    open spec fn from_spec(v: bool) -> Value {
        Value::Bool(v)
    }
}

/// Each cell of a row holds the type that the field in its position declares.
pub open spec fn conforms(fields: Seq<DataType>, row: Seq<Value>) -> bool {
    row.len() == fields.len() && forall|i: int|
        0 <= i < row.len() ==> #[trigger] row[i].spec_data_type() == fields[i]
}

/// A cell read back at the column type `t` with that type's accessor, and
/// made a cell again.
pub open spec fn decode_cell(t: DataType, v: Value) -> Value {
    match t {
        DataType::String => Value::String(v.into_string()),
        DataType::Bytes => Value::Bytes(v.into_bytes()),
        DataType::Int64 => Value::Int64(v.into_i64()),
        DataType::Float64 => Value::Float64(v.into_f64_bits()),
        DataType::Bool => Value::Bool(v.into_bool()),
    }
}

/// Round trip: a scalar made a cell and read back with the accessor of its
/// type is the scalar it was, and the cell has that type's column type. A
/// row that fits its column types, read back cell by cell at those types,
/// is the row it was; with no columns the only such row is the empty one.
pub proof fn lemma_round_trip(
    s: String,
    b: Vec<u8>,
    i: i64,
    f: u64,
    x: bool,
    types: Seq<DataType>,
    row: Seq<Value>,
)
    ensures
        Value::String(s).into_string() == s,
        Value::Bytes(b).into_bytes() == b,
        Value::Int64(i).into_i64() == i,
        Value::Float64(f).into_f64_bits() == f,
        Value::Bool(x).into_bool() == x,
        Value::String(s).spec_data_type() == <String as ToDataType>::spec_data_type(),
        Value::Bytes(b).spec_data_type() == <Vec<u8> as ToDataType>::spec_data_type(),
        Value::Int64(i).spec_data_type() == <i64 as ToDataType>::spec_data_type(),
        Value::Bool(x).spec_data_type() == <bool as ToDataType>::spec_data_type(),
        conforms(types, row) ==> Seq::new(row.len(), |k: int| decode_cell(types[k], row[k])) == row,
        conforms(Seq::empty(), row) <==> row == Seq::<Value>::empty(),
{
    if conforms(types, row) {
        assert forall|k: int| 0 <= k < row.len() implies decode_cell(types[k], row[k]) == row[k] by {
            assert(row[k].spec_data_type() == types[k]);
        }
        assert(Seq::new(row.len(), |k: int| decode_cell(types[k], row[k])) =~= row);
    }
    if row.len() == 0 {
        assert(row =~= Seq::<Value>::empty());
    }
}

} // verus!
