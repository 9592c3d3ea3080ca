use vstd::prelude::*;
use vstd::string::*;

use crate::data::{ObjectId, Value};
use crate::error::Error;
use crate::object::{column_definition, Field, Schema};

verus! {

/// The narrow contract that the object cache needs from a backend: one open
/// transaction, single-row operations keyed by schema and identifier, and
/// the final commit or rollback.
pub trait StorageTransaction {
    /// Whether a table of this name exists.
    fn table_exists(&mut self, table: &str) -> Result<bool, Error>;

    /// Creates the table of a schema: an autoincrement identifier column and
    /// one column per field.
    fn create_table(&mut self, schema: &Schema) -> Result<(), Error>;

    /// Inserts a row that holds one value per field, and returns the
    /// identifier that the backend assigned to it.
    fn insert_row(&mut self, schema: &Schema, row: &Vec<Value>) -> Result<ObjectId, Error>;

    /// Overwrites every column of the row with this identifier.
    fn update_row(&mut self, id: ObjectId, schema: &Schema, row: &Vec<Value>) -> Result<(), Error>;

    /// Reads every column of the row with this identifier, in schema order.
    fn select_row(&mut self, id: ObjectId, schema: &Schema) -> Result<Vec<Value>, Error>;

    /// Removes the row with this identifier.
    fn delete_row(&mut self, id: ObjectId, schema: &Schema) -> Result<(), Error>;

    fn commit(&mut self) -> Result<(), Error>;

    fn rollback(&mut self) -> Result<(), Error>;
}

/// One backend call as the cache made it: its arguments and what came back.
pub ghost enum StorageCall {
    TableExists(Seq<char>, Result<bool, Error>),
    CreateTable(Schema, Result<(), Error>),
    InsertRow(Schema, Seq<Value>, Result<ObjectId, Error>),
    UpdateRow(ObjectId, Schema, Seq<Value>, Result<(), Error>),
    SelectRow(ObjectId, Schema, Result<Seq<Value>, Error>),
    DeleteRow(ObjectId, Schema, Result<(), Error>),
    Commit(Result<(), Error>),
    Rollback(Result<(), Error>),
}

/// A backend together with the record of every call made on it. Each method
/// makes exactly one call and appends it to the record; nothing else
/// touches the record.
pub struct RecordedStorage<S> {
    backend: S,
    calls: Ghost<Seq<StorageCall>>,
}

impl<S: StorageTransaction> RecordedStorage<S> {
    /// The calls made so far, oldest first.
    pub closed spec fn calls(&self) -> Seq<StorageCall> {
        self.calls@
    }

    pub fn new(backend: S) -> (r: Self)
        ensures
            r.calls() == Seq::<StorageCall>::empty(),
    {
        RecordedStorage { backend, calls: Ghost(Seq::empty()) }
    }

    pub fn table_exists(&mut self, table: &str) -> (r: Result<bool, Error>)
        ensures
            final(self).calls() == old(self).calls().push(StorageCall::TableExists(table@, r)),
    {
        let r = self.backend.table_exists(table);
        self.calls = Ghost(self.calls@.push(StorageCall::TableExists(table@, r)));
        r
    }

    pub fn create_table(&mut self, schema: &Schema) -> (r: Result<(), Error>)
        ensures
            final(self).calls() == old(self).calls().push(StorageCall::CreateTable(*schema, r)),
    {
        let r = self.backend.create_table(schema);
        self.calls = Ghost(self.calls@.push(StorageCall::CreateTable(*schema, r)));
        r
    }

    pub fn insert_row(&mut self, schema: &Schema, row: &Vec<Value>) -> (r: Result<ObjectId, Error>)
        ensures
            final(self).calls() == old(self).calls().push(StorageCall::InsertRow(*schema, row@, r)),
    {
        let r = self.backend.insert_row(schema, row);
        self.calls = Ghost(self.calls@.push(StorageCall::InsertRow(*schema, row@, r)));
        r
    }

    pub fn update_row(&mut self, id: ObjectId, schema: &Schema, row: &Vec<Value>) -> (r: Result<(), Error>)
        ensures
            final(self).calls() == old(self).calls().push(
                StorageCall::UpdateRow(id, *schema, row@, r),
            ),
    {
        let r = self.backend.update_row(id, schema, row);
        self.calls = Ghost(self.calls@.push(StorageCall::UpdateRow(id, *schema, row@, r)));
        r
    }

    pub fn select_row(&mut self, id: ObjectId, schema: &Schema) -> (r: Result<Vec<Value>, Error>)
        ensures
            final(self).calls() == old(self).calls().push(
                StorageCall::SelectRow(id, *schema, seq_result(r)),
            ),
    {
        let r = self.backend.select_row(id, schema);
        self.calls = Ghost(self.calls@.push(StorageCall::SelectRow(id, *schema, seq_result(r))));
        r
    }

    pub fn delete_row(&mut self, id: ObjectId, schema: &Schema) -> (r: Result<(), Error>)
        ensures
            final(self).calls() == old(self).calls().push(StorageCall::DeleteRow(id, *schema, r)),
    {
        let r = self.backend.delete_row(id, schema);
        self.calls = Ghost(self.calls@.push(StorageCall::DeleteRow(id, *schema, r)));
        r
    }

    pub fn commit(&mut self) -> (r: Result<(), Error>)
        ensures
            final(self).calls() == old(self).calls().push(StorageCall::Commit(r)),
    {
        let r = self.backend.commit();
        self.calls = Ghost(self.calls@.push(StorageCall::Commit(r)));
        r
    }

    pub fn rollback(&mut self) -> (r: Result<(), Error>)
        ensures
            final(self).calls() == old(self).calls().push(StorageCall::Rollback(r)),
    {
        let r = self.backend.rollback();
        self.calls = Ghost(self.calls@.push(StorageCall::Rollback(r)));
        r
    }
}

/// A row read, with the row as a sequence.
pub open spec fn seq_result(r: Result<Vec<Value>, Error>) -> Result<Seq<Value>, Error> {
    match r {
        Ok(v) => Ok(v@),
        Err(e) => Err(e),
    }
}

/// The calls that make sure the table of `schema` exists, at the start of
/// `w`: the existence query, then the creation where the table is missing.
/// Gives how many calls that took and how it ended.
pub open spec fn table_step(schema: Schema, w: Seq<StorageCall>) -> Option<(nat, Result<(), Error>)> {
    if w.len() == 0 {
        None
    } else {
        match w[0] {
            StorageCall::TableExists(name, answer) => {
                if name != schema.table_name@ {
                    None
                } else {
                    match answer {
                        Ok(true) => Some((1nat, Ok(()))),
                        Err(e) => Some((1nat, Err(e))),
                        Ok(false) => {
                            if w.len() < 2 {
                                None
                            } else {
                                match w[1] {
                                    StorageCall::CreateTable(s, made) => {
                                        if s == schema {
                                            Some((2nat, made))
                                        } else {
                                            None
                                        }
                                    },
                                    _ => None,
                                }
                            }
                        },
                    }
                }
            },
            _ => None,
        }
    }
}

/// The parts, separated by commas.
pub open spec fn joined(parts: Seq<Seq<char>>) -> Seq<char>
    decreases parts.len(),
{
    if parts.len() == 0 {
        Seq::empty()
    } else if parts.len() == 1 {
        parts[0]
    } else {
        joined(parts.drop_last()) + ","@ + parts.last()
    }
}

/// The decimal digit `d`.
pub open spec fn digit(d: nat) -> Seq<char> {
    if d == 0 {
        "0"@
    } else if d == 1 {
        "1"@
    } else if d == 2 {
        "2"@
    } else if d == 3 {
        "3"@
    } else if d == 4 {
        "4"@
    } else if d == 5 {
        "5"@
    } else if d == 6 {
        "6"@
    } else if d == 7 {
        "7"@
    } else if d == 8 {
        "8"@
    } else {
        "9"@
    }
}

/// `n` in decimal, without leading zeros.
pub open spec fn decimal(n: nat) -> Seq<char>
    decreases n,
{
    if n < 10 {
        digit(n)
    } else {
        decimal(n / 10) + digit(n % 10)
    }
}

/// The numbered statement parameter `n`.
pub open spec fn placeholder(n: nat) -> Seq<char> {
    "?"@ + decimal(n)
}

/// The column names of the fields, comma-separated.
pub open spec fn column_list(fields: Seq<Field>) -> Seq<char> {
    joined(fields.map_values(|f: Field| f.column_name@))
}

pub open spec fn create_table_statement(schema: Schema) -> Seq<char> {
    "CREATE TABLE "@ + schema.table_name@ + "("@ + joined(
        seq!["id INTEGER PRIMARY KEY AUTOINCREMENT"@] + schema.fields@.map_values(
            |f: Field| column_definition(f),
        ),
    ) + ")"@
}

pub open spec fn insert_statement(schema: Schema) -> Seq<char> {
    if schema.fields.len() == 0 {
        "INSERT INTO "@ + schema.table_name@ + " DEFAULT VALUES"@
    } else {
        "INSERT INTO "@ + schema.table_name@ + "("@ + column_list(schema.fields@) + ") VALUES("@
            + joined(Seq::new(schema.fields.len() as nat, |i: int| placeholder((i + 1) as nat)))
            + ")"@
    }
}

pub open spec fn update_statement(schema: Schema) -> Seq<char> {
    "UPDATE "@ + schema.table_name@ + " SET "@ + joined(
        Seq::new(
            schema.fields.len() as nat,
            |i: int| schema.fields[i].column_name@ + " = "@ + placeholder((i + 1) as nat),
        ),
    ) + " WHERE id = "@ + placeholder((schema.fields.len() + 1) as nat)
}

pub open spec fn select_statement(schema: Schema) -> Seq<char> {
    "SELECT "@ + (if schema.fields.len() == 0 {
        "1"@
    } else {
        column_list(schema.fields@)
    }) + " FROM "@ + schema.table_name@ + " WHERE id = ?1"@
}

pub open spec fn delete_statement(schema: Schema) -> Seq<char> {
    "DELETE FROM "@ + schema.table_name@ + " WHERE id = ?1"@
}

proof fn lemma_joined_step(parts: Seq<Seq<char>>, i: int)
    requires
        0 <= i < parts.len(),
    ensures
        joined(parts.take(i + 1)) == if i == 0 {
            parts[0]
        } else {
            joined(parts.take(i)) + ","@ + parts[i]
        },
{
    assert(parts.take(i + 1).drop_last() =~= parts.take(i));
}

/// Joins the parts with commas.
fn join_parts(parts: &Vec<String>) -> (r: String)
    ensures
        r@ == joined(parts@.map_values(|s: String| s@)),
{
    let ghost views = parts@.map_values(|s: String| s@);
    let mut r = String::new();
    let mut i: usize = 0;
    while i < parts.len()
        invariant
            i <= parts@.len(),
            views == parts@.map_values(|s: String| s@),
            r@ == joined(views.take(i as int)),
        decreases parts@.len() - i,
    {
        proof {
            lemma_joined_step(views, i as int);
        }
        if i > 0 {
            r.append(",");
        }
        r.append(parts[i].as_str());
        i = i + 1;
    }
    proof {
        assert(views.take(i as int) =~= views);
    }
    r
}

fn digit_str(d: usize) -> (r: &'static str)
    requires
        d < 10,
    ensures
        r@ == digit(d as nat),
{
    if d == 0 {
        "0"
    } else if d == 1 {
        "1"
    } else if d == 2 {
        "2"
    } else if d == 3 {
        "3"
    } else if d == 4 {
        "4"
    } else if d == 5 {
        "5"
    } else if d == 6 {
        "6"
    } else if d == 7 {
        "7"
    } else if d == 8 {
        "8"
    } else {
        "9"
    }
}

fn decimal_string(n: usize) -> (r: String)
    ensures
        r@ == decimal(n as nat),
    decreases n,
{
    if n < 10 {
        String::from_str(digit_str(n))
    } else {
        decimal_string(n / 10).concat(digit_str(n % 10))
    }
}

fn placeholder_string(n: usize) -> (r: String)
    ensures
        r@ == placeholder(n as nat),
{
    String::from_str("?").concat(decimal_string(n).as_str())
}

/// The column names of a schema, comma-separated.
pub fn list_fields(schema: &Schema) -> (r: String)
    ensures
        r@ == column_list(schema.fields@),
{
    let mut parts: Vec<String> = Vec::new();
    let mut i: usize = 0;
    while i < schema.fields.len()
        invariant
            i <= schema.fields@.len(),
            parts@.len() == i,
            forall|k: int| 0 <= k < i ==> #[trigger] parts@[k]@ == schema.fields@[k].column_name@,
        decreases schema.fields@.len() - i,
    {
        parts.push(schema.fields[i].column_name.clone());
        i = i + 1;
    }
    proof {
        assert(parts@.map_values(|s: String| s@) =~= schema.fields@.map_values(
            |f: Field| f.column_name@,
        ));
    }
    join_parts(&parts)
}

/// The statement that creates the table of a schema.
pub fn create_table_sql(schema: &Schema) -> (r: String)
    ensures
        r@ == create_table_statement(*schema),
{
    let mut parts: Vec<String> = Vec::new();
    parts.push(String::from_str("id INTEGER PRIMARY KEY AUTOINCREMENT"));
    let mut i: usize = 0;
    while i < schema.fields.len()
        invariant
            i <= schema.fields@.len(),
            parts@.len() == i + 1,
            parts@[0]@ == "id INTEGER PRIMARY KEY AUTOINCREMENT"@,
            forall|k: int| 0 <= k < i ==> #[trigger] parts@[k + 1]@ == column_definition(
                schema.fields@[k],
            ),
        decreases schema.fields@.len() - i,
    {
        parts.push(schema.fields[i].get_create_sql());
        i = i + 1;
    }
    proof {
        let want = seq!["id INTEGER PRIMARY KEY AUTOINCREMENT"@] + schema.fields@.map_values(
            |f: Field| column_definition(f),
        );
        assert forall|k: int| 0 <= k < parts@.len() implies parts@.map_values(|s: String| s@)[k]
            == want[k] by {
            if k > 0 {
                assert(parts@[(k - 1) + 1]@ == column_definition(schema.fields@[k - 1]));
            }
        }
        assert(parts@.map_values(|s: String| s@) =~= want);
    }
    let cols = join_parts(&parts);
    String::from_str("CREATE TABLE ").concat(schema.table_name.as_str()).concat("(").concat(
        cols.as_str(),
    ).concat(")")
}

/// The statement that inserts one row; with no fields, a row of defaults.
pub fn insert_sql(schema: &Schema) -> (r: String)
    ensures
        r@ == insert_statement(*schema),
{
    if schema.fields.len() == 0 {
        return String::from_str("INSERT INTO ").concat(schema.table_name.as_str()).concat(
            " DEFAULT VALUES",
        );
    }
    let n = schema.fields.len();
    let mut parts: Vec<String> = Vec::new();
    let mut i: usize = 0;
    while i < n
        invariant
            n == schema.fields@.len(),
            i <= n,
            parts@.len() == i,
            forall|k: int| 0 <= k < i ==> #[trigger] parts@[k]@ == placeholder((k + 1) as nat),
        decreases n - i,
    {
        parts.push(placeholder_string(i + 1));
        i = i + 1;
    }
    proof {
        assert(parts@.map_values(|s: String| s@) =~= Seq::new(
            n as nat,
            |k: int| placeholder((k + 1) as nat),
        ));
    }
    let values = join_parts(&parts);
    let cols = list_fields(schema);
    String::from_str("INSERT INTO ").concat(schema.table_name.as_str()).concat("(").concat(
        cols.as_str(),
    ).concat(") VALUES(").concat(values.as_str()).concat(")")
}

/// The statement that overwrites every column of one row; none where the
/// schema has no fields, as there is nothing to write.
pub fn update_sql(schema: &Schema) -> (r: Option<String>)
    requires
        schema.fields@.len() < usize::MAX,
    ensures
        match r {
            Some(t) => schema.fields@.len() > 0 && t@ == update_statement(*schema),
            None => schema.fields@.len() == 0,
        },
{
    let n = schema.fields.len();
    if n == 0 {
        return None;
    }
    let mut parts: Vec<String> = Vec::new();
    let mut i: usize = 0;
    while i < n
        invariant
            n == schema.fields@.len(),
            i <= n,
            parts@.len() == i,
            forall|k: int| 0 <= k < i ==> #[trigger] parts@[k]@ == schema.fields@[k].column_name@
                + " = "@ + placeholder((k + 1) as nat),
        decreases n - i,
    {
        let p = schema.fields[i].column_name.clone().concat(" = ").concat(
            placeholder_string(i + 1).as_str(),
        );
        parts.push(p);
        i = i + 1;
    }
    proof {
        assert(parts@.map_values(|s: String| s@) =~= Seq::new(
            n as nat,
            |k: int| schema.fields@[k].column_name@ + " = "@ + placeholder((k + 1) as nat),
        ));
    }
    let sets = join_parts(&parts);
    let last = placeholder_string(n + 1);
    Some(
        String::from_str("UPDATE ").concat(schema.table_name.as_str()).concat(" SET ").concat(
            sets.as_str(),
        ).concat(" WHERE id = ").concat(last.as_str()),
    )
}

/// The statement that reads one row; with no fields, a probe for its
/// existence.
pub fn select_sql(schema: &Schema) -> (r: String)
    ensures
        r@ == select_statement(*schema),
{
    let cols = if schema.fields.len() == 0 {
        String::from_str("1")
    } else {
        list_fields(schema)
    };
    String::from_str("SELECT ").concat(cols.as_str()).concat(" FROM ").concat(
        schema.table_name.as_str(),
    ).concat(" WHERE id = ?1")
}

/// The statement that deletes one row.
pub fn delete_sql(schema: &Schema) -> (r: String)
    ensures
        r@ == delete_statement(*schema),
{
    String::from_str("DELETE FROM ").concat(schema.table_name.as_str()).concat(" WHERE id = ?1")
}

} // verus!
