use vstd::prelude::*;
use vstd::string::*;

use crate::data::{conforms, DataType, Value};

verus! {

/// One persisted attribute: its column, its scalar type and the attribute
/// name that diagnostics report.
#[derive(Clone, Debug, PartialEq, Eq)]
pub struct Field {
    pub column_name: String,
    pub data_type: DataType,
    pub attr_name: String,
}

/// How one object type maps onto one table. A row of this type holds one
/// value per field, in the order of `fields`.
#[derive(Clone, Debug, PartialEq, Eq)]
pub struct Schema {
    pub table_name: String,
    pub fields: Vec<Field>,
    pub object_name: String,
}

/// A row fits a schema: one cell per field, each of the field's type.
pub open spec fn fits(schema: Schema, row: Seq<Value>) -> bool {
    conforms(field_types(schema.fields@), row)
}

/// The column types of the fields, in order.
pub open spec fn field_types(fields: Seq<Field>) -> Seq<DataType> {
    fields.map_values(|f: Field| f.data_type)
}

/// The SQL column type that stores a scalar type.
pub open spec fn sql_type(t: DataType) -> Seq<char> {
    match t {
        DataType::String => "TEXT"@,
        DataType::Bytes => "BLOB"@,
        DataType::Int64 => "BIGINT"@,
        DataType::Float64 => "REAL"@,
        DataType::Bool => "TINYINT"@,
    }
}

/// A column definition: its name, a space, its SQL type.
pub open spec fn column_definition(f: Field) -> Seq<char> {
    f.column_name@ + " "@ + sql_type(f.data_type)
}

/// The SQL column type that stores a scalar type.
pub fn sql_type_name(t: DataType) -> (r: &'static str)
    ensures
        r@ == sql_type(t),
{
    match t {
        DataType::String => "TEXT",
        DataType::Bytes => "BLOB",
        DataType::Int64 => "BIGINT",
        DataType::Float64 => "REAL",
        DataType::Bool => "TINYINT",
    }
}

impl Field {
    /// The column definition of this field, as a table definition lists it.
    pub fn get_create_sql(&self) -> (r: String)
        ensures
            r@ == column_definition(*self),
    {
        let ty = sql_type_name(self.data_type);
        let r = self.column_name.clone().concat(" ").concat(ty);
        r
    }
}

/// Whether a row fits a schema, as `create` asks of the rows it is given.
pub fn row_fits(schema: &Schema, row: &Vec<Value>) -> (r: bool)
    ensures
        r == fits(*schema, row@),
{
    if row.len() != schema.fields.len() {
        return false;
    }
    let mut i: usize = 0;
    while i < row.len()
        invariant
            row@.len() == schema.fields@.len(),
            i <= row@.len(),
            forall|j: int| 0 <= j < i ==> #[trigger] row@[j].spec_data_type() == schema.fields@[j].data_type,
        decreases row@.len() - i,
    {
        if row[i].data_type() != schema.fields[i].data_type {
            proof {
                assert(field_types(schema.fields@)[i as int] == schema.fields@[i as int].data_type);
            }
            return false;
        }
        i = i + 1;
    }
    proof {
        assert forall|j: int| 0 <= j < row@.len() implies #[trigger] row@[j].spec_data_type()
            == field_types(schema.fields@)[j] by {
            assert(row@[j].spec_data_type() == schema.fields@[j].data_type);
        }
    }
    true
}

} // verus!
