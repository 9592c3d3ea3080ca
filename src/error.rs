use vstd::prelude::*;
use vstd::string::*;

use crate::data::{DataType, ObjectId, Value};
use crate::object::{field_types, fits, sql_type, sql_type_name, Field, Schema};

verus! {

/// No row holds the requested identifier, or the object was deleted earlier
/// in the same transaction.
#[derive(Debug, Clone, PartialEq, Eq)]
pub struct NotFoundError {
    pub object_id: ObjectId,
    pub object_name: String,
}

/// The backend handed back a cell whose type is not the one the schema declares.
#[derive(Debug, Clone, PartialEq, Eq)]
pub struct UnexpectedTypeError {
    pub object_name: String,
    pub attr_name: String,
    pub table_name: String,
    pub column_name: String,
    pub expected_type: DataType,
    pub got_type: String,
}

/// The backend reports that a column of the schema does not exist.
#[derive(Debug, Clone, PartialEq, Eq)]
pub struct MissingColumnError {
    pub object_name: String,
    pub attr_name: String,
    pub table_name: String,
    pub column_name: String,
}

/// Every failure of the object cache and of its backend.
#[derive(Debug, Clone, PartialEq, Eq)]
pub enum Error {
    NotFound(NotFoundError),
    UnexpectedType(UnexpectedTypeError),
    MissingColumn(MissingColumnError),
    /// The database is locked by another transaction; the caller may retry.
    LockConflict,
    /// Any other backend failure, with the backend's own description.
    Storage(String),
}

/// What the backend reported when a call failed, as plain values.
#[derive(Debug, Clone, PartialEq, Eq)]
pub enum BackendErrorKind {
    /// The cell in column `index` had the type `got_type`, not the declared one.
    InvalidColumnType { index: usize, got_type: String },
    /// The query matched no row.
    NoRows,
    /// The database engine failed; `busy` when another transaction holds the
    /// lock, `message` the engine's own message if it gave one.
    Failure { busy: bool, message: Option<String> },
    /// Any other failure.
    Other,
}

/// A failed backend call: what kind of failure, and the backend's own
/// description of it.
#[derive(Debug, Clone, PartialEq, Eq)]
pub struct BackendError {
    pub kind: BackendErrorKind,
    pub description: String,
}

/// Whether `p` occurs in `m` starting at position `at`.
pub open spec fn occurs_at(p: Seq<char>, m: Seq<char>, at: int) -> bool {
    0 <= at && at + p.len() <= m.len() && m.subrange(at, at + p.len()) == p
}

/// Whether `p` occurs anywhere in `m`.
pub open spec fn occurs_in(p: Seq<char>, m: Seq<char>) -> bool {
    exists|at: int| occurs_at(p, m, at)
}

/// The position of the last space of `m`, or -1 where it has none.
pub open spec fn last_space(m: Seq<char>) -> int
    decreases m.len(),
{
    if m.len() == 0 {
        -1
    } else if m.last() == ' ' {
        m.len() - 1
    } else {
        last_space(m.drop_last())
    }
}

/// The column that an engine message reports missing: what follows
/// "no such column: " at its start, or, in a message that says
/// "has no column named ", its last word.
pub open spec fn column_name_in(m: Seq<char>) -> Option<Seq<char>> {
    if occurs_at("no such column: "@, m, 0) {
        Some(m.subrange("no such column: "@.len() as int, m.len() as int))
    } else if occurs_in("has no column named "@, m) {
        Some(m.subrange(last_space(m) + 1, m.len() as int))
    } else {
        None
    }
}

fn occurs_at_exec(p: &str, m: &str, at: usize) -> (r: bool)
    ensures
        r == occurs_at(p@, m@, at as int),
{
    let p_len = p.unicode_len();
    let m_len = m.unicode_len();
    if at > m_len || p_len > m_len - at {
        return false;
    }
    let mut k: usize = 0;
    while k < p_len
        invariant
            p_len == p@.len(),
            m_len == m@.len(),
            at + p_len <= m_len,
            k <= p_len,
            forall|j: int| 0 <= j < k ==> m@[at + j] == p@[j],
        decreases p_len - k,
    {
        if m.get_char(at + k) != p.get_char(k) {
            proof {
                assert(m@.subrange(at as int, at + p_len)[k as int] != p@[k as int]);
            }
            return false;
        }
        k = k + 1;
    }
    proof {
        assert(m@.subrange(at as int, at + p_len) =~= p@);
    }
    true
}

fn occurs_in_exec(p: &str, m: &str) -> (r: bool)
    ensures
        r == occurs_in(p@, m@),
{
    let m_len = m.unicode_len();
    let mut at: usize = 0;
    loop
        invariant
            m_len == m@.len(),
            at <= m_len,
            forall|a: int| 0 <= a < at ==> !occurs_at(p@, m@, a),
        decreases m_len - at,
    {
        if occurs_at_exec(p, m, at) {
            return true;
        }
        if at == m_len {
            proof {
                assert forall|a: int| !occurs_at(p@, m@, a) by {
                    if 0 <= a < at {
                    }
                }
            }
            return false;
        }
        at = at + 1;
    }
}

/// The column that an engine message reports missing, if it reports one.
pub fn find_column_name(msg: &str) -> (r: Option<&str>)
    ensures
        match r {
            Some(c) => column_name_in(msg@) == Some(c@),
            None => column_name_in(msg@) is None,
        },
{
    let m_len = msg.unicode_len();
    let prefix = "no such column: ";
    if occurs_at_exec(prefix, msg, 0) {
        let p_len = prefix.unicode_len();
        return Some(msg.substring_char(p_len, m_len));
    }
    if !occurs_in_exec("has no column named ", msg) {
        return None;
    }
    let mut j: usize = m_len;
    proof {
        assert(msg@.take(m_len as int) =~= msg@);
    }
    while j > 0 && msg.get_char(j - 1) != ' '
        invariant
            j <= m_len,
            m_len == msg@.len(),
            last_space(msg@) == last_space(msg@.take(j as int)),
        decreases j,
    {
        proof {
            assert(msg@.take(j as int).drop_last() =~= msg@.take(j - 1));
        }
        j = j - 1;
    }
    proof {
        if j > 0 {
            assert(msg@.take(j as int).last() == ' ');
        } else {
            assert(msg@.take(0) =~= Seq::<char>::empty());
        }
    }
    Some(msg.substring_char(j, m_len))
}

/// The first field whose column is called `name`.
pub open spec fn field_named(fields: Seq<Field>, name: Seq<char>) -> Option<Field>
    decreases fields.len(),
{
    if fields.len() == 0 {
        None
    } else if fields[0].column_name@ == name {
        Some(fields[0])
    } else {
        field_named(fields.drop_first(), name)
    }
}

/// A failure as every backend call reports it: a locked database is a lock
/// conflict, anything else a storage error with the backend's description.
pub open spec fn generic_error(err: BackendError) -> Error {
    match err.kind {
        BackendErrorKind::Failure { busy: true, .. } => Error::LockConflict,
        _ => Error::Storage(err.description),
    }
}

/// A failure of a call on the rows of `schema`: a cell of the wrong type
/// names its field, a message about a missing column of the schema names
/// that column's field, and anything else is as `generic_error` says.
pub open spec fn schema_error(err: BackendError, schema: Schema) -> Error {
    match err.kind {
        BackendErrorKind::InvalidColumnType { index, got_type } => {
            if index < schema.fields.len() {
                let f = schema.fields[index as int];
                Error::UnexpectedType(
                    UnexpectedTypeError {
                        object_name: schema.object_name,
                        attr_name: f.attr_name,
                        table_name: schema.table_name,
                        column_name: f.column_name,
                        expected_type: f.data_type,
                        got_type,
                    },
                )
            } else {
                generic_error(err)
            }
        },
        BackendErrorKind::Failure { busy, message: Some(m) } => {
            match column_name_in(m@) {
                Some(c) => match field_named(schema.fields@, c) {
                    Some(f) => Error::MissingColumn(
                        MissingColumnError {
                            object_name: schema.object_name,
                            attr_name: f.attr_name,
                            table_name: schema.table_name,
                            column_name: f.column_name,
                        },
                    ),
                    None => generic_error(err),
                },
                None => generic_error(err),
            }
        },
        _ => generic_error(err),
    }
}

/// A failure of a call on the row `id` of `schema`: no matching row means
/// the object is not found; anything else is as `schema_error` says.
pub open spec fn row_error(err: BackendError, schema: Schema, id: ObjectId) -> Error {
    match err.kind {
        BackendErrorKind::NoRows => Error::NotFound(
            NotFoundError { object_id: id, object_name: schema.object_name },
        ),
        _ => schema_error(err, schema),
    }
}

/// Classifies a failure that concerns no particular schema.
pub fn map_backend_error(err: BackendError) -> (r: Error)
    ensures
        r == generic_error(err),
{
    match err.kind {
        BackendErrorKind::Failure { busy: true, .. } => Error::LockConflict,
        _ => Error::Storage(err.description),
    }
}

fn find_field<'a>(fields: &'a Vec<Field>, name: &str) -> (r: Option<&'a Field>)
    ensures
        match r {
            Some(f) => field_named(fields@, name@) == Some(*f),
            None => field_named(fields@, name@) is None,
        },
{
    let mut i: usize = 0;
    proof {
        assert(fields@.subrange(0, fields@.len() as int) =~= fields@);
    }
    while i < fields.len()
        invariant
            i <= fields@.len(),
            field_named(fields@, name@) == field_named(fields@.subrange(i as int, fields@.len() as int), name@),
        decreases fields@.len() - i,
    {
        let ghost rest = fields@.subrange(i as int, fields@.len() as int);
        proof {
            assert(rest.drop_first() =~= fields@.subrange(i + 1, fields@.len() as int));
            assert(rest[0] == fields@[i as int]);
        }
        if fields[i].column_name.as_str().unicode_len() == name.unicode_len()
            && occurs_at_exec(name, fields[i].column_name.as_str(), 0) {
            proof {
                assert(fields@[i as int].column_name@ =~= name@);
            }
            return Some(&fields[i]);
        }
        proof {
            if fields@[i as int].column_name@ == name@ {
                assert(fields@[i as int].column_name@.subrange(0, name@.len() as int) =~= name@);
            }
        }
        i = i + 1;
    }
    proof {
        assert(fields@.subrange(i as int, fields@.len() as int) =~= Seq::<Field>::empty());
    }
    None
}

/// Classifies a failure of a call on the rows of `schema`.
pub fn map_rusqlite_error(err: BackendError, schema: &Schema) -> (r: Error)
    ensures
        r == schema_error(err, *schema),
{
    match &err.kind {
        BackendErrorKind::InvalidColumnType { index, got_type } => {
            if *index < schema.fields.len() {
                let f = &schema.fields[*index];
                return Error::UnexpectedType(
                    UnexpectedTypeError {
                        object_name: schema.object_name.clone(),
                        attr_name: f.attr_name.clone(),
                        table_name: schema.table_name.clone(),
                        column_name: f.column_name.clone(),
                        expected_type: f.data_type,
                        got_type: got_type.clone(),
                    },
                );
            }
        },
        BackendErrorKind::Failure { busy, message: Some(m) } => {
            if let Some(c) = find_column_name(m.as_str()) {
                if let Some(f) = find_field(&schema.fields, c) {
                    return Error::MissingColumn(
                        MissingColumnError {
                            object_name: schema.object_name.clone(),
                            attr_name: f.attr_name.clone(),
                            table_name: schema.table_name.clone(),
                            column_name: f.column_name.clone(),
                        },
                    );
                }
            }
        },
        _ => {},
    }
    map_backend_error(err)
}

/// Classifies a failure of a call on the row `id` of `schema`.
pub fn map_rusqlite_error_with_id(err: BackendError, schema: &Schema, id: ObjectId) -> (r: Error)
    ensures
        r == row_error(err, *schema, id),
{
    match err.kind {
        BackendErrorKind::NoRows => Error::NotFound(
            NotFoundError { object_id: id, object_name: schema.object_name.clone() },
        ),
        _ => map_rusqlite_error(err, schema),
    }
}

/// The first position from `k` on where a row's cell has another type than
/// the column type there, or where the row or the types run out.
pub open spec fn first_mismatch(types: Seq<DataType>, row: Seq<Value>, k: int) -> int
    decreases row.len() - k,
{
    if k < 0 || k >= row.len() || k >= types.len() {
        k
    } else if row[k].spec_data_type() != types[k] {
        k
    } else {
        first_mismatch(types, row, k + 1)
    }
}

/// The error for a row read back that does not fit its schema. At the first
/// cell of the wrong type: an unexpected type that names the field and the
/// cell's type. Where the row runs out first: the first field without a
/// cell is missing. Where the row has cells to spare: a storage error.
pub open spec fn mismatch_error(schema: Schema, row: Seq<Value>, e: Error) -> bool {
    let k = first_mismatch(field_types(schema.fields@), row, 0);
    if k < row.len() && k < schema.fields@.len() {
        let f = schema.fields@[k];
        match e {
            Error::UnexpectedType(u) => u.object_name == schema.object_name && u.attr_name
                == f.attr_name && u.table_name == schema.table_name && u.column_name
                == f.column_name && u.expected_type == f.data_type && u.got_type@ == sql_type(
                row[k].spec_data_type(),
            ),
            _ => false,
        }
    } else if row.len() < schema.fields@.len() {
        let f = schema.fields@[row.len() as int];
        e == Error::MissingColumn(
            MissingColumnError {
                object_name: schema.object_name,
                attr_name: f.attr_name,
                table_name: schema.table_name,
                column_name: f.column_name,
            },
        )
    } else {
        e is Storage
    }
}

/// Checks a row read back against its schema.
pub fn check_row(schema: &Schema, row: &Vec<Value>) -> (r: Result<(), Error>)
    ensures
        r is Ok <==> fits(*schema, row@),
        r is Err ==> mismatch_error(*schema, row@, r->Err_0),
{
    let ghost types = field_types(schema.fields@);
    let n: usize = if row.len() < schema.fields.len() {
        row.len()
    } else {
        schema.fields.len()
    };
    let mut k: usize = 0;
    while k < n
        invariant
            types == field_types(schema.fields@),
            n <= row@.len(),
            n <= schema.fields@.len(),
            n == row@.len() || n == schema.fields@.len(),
            k <= n,
            first_mismatch(types, row@, 0) == first_mismatch(types, row@, k as int),
            forall|j: int| 0 <= j < k ==> #[trigger] row@[j].spec_data_type() == types[j],
        decreases n - k,
    {
        let f = &schema.fields[k];
        if row[k].data_type() != f.data_type {
            let got = String::from_str(sql_type_name(row[k].data_type()));
            return Err(
                Error::UnexpectedType(
                    UnexpectedTypeError {
                        object_name: schema.object_name.clone(),
                        attr_name: f.attr_name.clone(),
                        table_name: schema.table_name.clone(),
                        column_name: f.column_name.clone(),
                        expected_type: f.data_type,
                        got_type: got,
                    },
                ),
            );
        }
        k = k + 1;
    }
    if row.len() < schema.fields.len() {
        let f = &schema.fields[n];
        Err(
            Error::MissingColumn(
                MissingColumnError {
                    object_name: schema.object_name.clone(),
                    attr_name: f.attr_name.clone(),
                    table_name: schema.table_name.clone(),
                    column_name: f.column_name.clone(),
                },
            ),
        )
    } else if row.len() > schema.fields.len() {
        Err(Error::Storage(String::from_str("the row read back has more cells than the schema has fields")))
    } else {
        Ok(())
    }
}

} // verus!
