use orm::error::{map_backend_error, map_rusqlite_error_with_id};
use orm::{
    BackendError, BackendErrorKind, DataType, Error, Field, FlushOp, NotFoundError, ObjectId,
    ObjectState, Schema, StorageTransaction, Transaction, Value,
};
use std::cell::RefCell;
use std::collections::BTreeMap;
use std::rc::Rc;

#[derive(Clone, Default)]
struct Table {
    next_id: i64,
    rows: BTreeMap<i64, Vec<Value>>,
}

#[derive(Clone, Default)]
struct Db {
    tables: BTreeMap<String, Table>,
}

#[derive(Debug, Clone, PartialEq)]
enum Call {
    TableExists(String),
    CreateTable(String),
    Insert(Vec<Value>),
    Update(i64, Vec<Value>),
    Select(i64),
    Delete(i64),
    Commit,
    Rollback,
}

/// An in-memory backend: each transaction works on a copy of the committed
/// data and publishes it on commit.
struct Memory {
    shared: Rc<RefCell<Db>>,
    work: Db,
    calls: Rc<RefCell<Vec<Call>>>,
    fail_updates: bool,
}

impl Memory {
    fn open(shared: &Rc<RefCell<Db>>, calls: &Rc<RefCell<Vec<Call>>>) -> Memory {
        Memory {
            shared: shared.clone(),
            work: shared.borrow().clone(),
            calls: calls.clone(),
            fail_updates: false,
        }
    }

    fn table(&mut self, schema: &Schema) -> Result<&mut Table, Error> {
        self.work
            .tables
            .get_mut(&schema.table_name)
            .ok_or_else(|| Error::Storage(format!("no such table: {}", schema.table_name)))
    }
}

impl StorageTransaction for Memory {
    fn table_exists(&mut self, table: &str) -> Result<bool, Error> {
        self.calls.borrow_mut().push(Call::TableExists(table.to_string()));
        Ok(self.work.tables.contains_key(table))
    }

    fn create_table(&mut self, schema: &Schema) -> Result<(), Error> {
        self.calls.borrow_mut().push(Call::CreateTable(schema.table_name.clone()));
        self.work.tables.insert(
            schema.table_name.clone(),
            Table { next_id: 1, rows: BTreeMap::new() },
        );
        Ok(())
    }

    fn insert_row(&mut self, schema: &Schema, row: &Vec<Value>) -> Result<ObjectId, Error> {
        self.calls.borrow_mut().push(Call::Insert(row.clone()));
        let t = self.table(schema)?;
        let id = t.next_id;
        t.next_id += 1;
        t.rows.insert(id, row.clone());
        Ok(ObjectId::from(id))
    }

    fn update_row(&mut self, id: ObjectId, schema: &Schema, row: &Vec<Value>) -> Result<(), Error> {
        self.calls.borrow_mut().push(Call::Update(id.into_i64(), row.clone()));
        if self.fail_updates {
            return Err(map_backend_error(BackendError {
                kind: BackendErrorKind::Failure { busy: true, message: None },
                description: "database is locked".to_string(),
            }));
        }
        let t = self.table(schema)?;
        t.rows.insert(id.into_i64(), row.clone());
        Ok(())
    }

    fn select_row(&mut self, id: ObjectId, schema: &Schema) -> Result<Vec<Value>, Error> {
        self.calls.borrow_mut().push(Call::Select(id.into_i64()));
        let t = self.table(schema)?;
        match t.rows.get(&id.into_i64()) {
            Some(r) => Ok(r.clone()),
            None => Err(map_rusqlite_error_with_id(
                BackendError {
                    kind: BackendErrorKind::NoRows,
                    description: "query returned no rows".to_string(),
                },
                schema,
                id,
            )),
        }
    }

    fn delete_row(&mut self, id: ObjectId, schema: &Schema) -> Result<(), Error> {
        self.calls.borrow_mut().push(Call::Delete(id.into_i64()));
        let t = self.table(schema)?;
        t.rows.remove(&id.into_i64());
        Ok(())
    }

    fn commit(&mut self) -> Result<(), Error> {
        self.calls.borrow_mut().push(Call::Commit);
        *self.shared.borrow_mut() = self.work.clone();
        Ok(())
    }

    fn rollback(&mut self) -> Result<(), Error> {
        self.calls.borrow_mut().push(Call::Rollback);
        Ok(())
    }
}

fn person() -> Schema {
    Schema {
        table_name: "person".to_string(),
        fields: vec![Field {
            column_name: "name".to_string(),
            data_type: DataType::String,
            attr_name: "name".to_string(),
        }],
        object_name: "Person".to_string(),
    }
}

fn name(s: &str) -> Vec<Value> {
    vec![Value::String(s.to_string())]
}

fn setup() -> (Rc<RefCell<Db>>, Rc<RefCell<Vec<Call>>>) {
    (Rc::new(RefCell::new(Db::default())), Rc::new(RefCell::new(Vec::new())))
}

fn not_found(id: i64) -> Error {
    Error::NotFound(NotFoundError { object_id: ObjectId(id), object_name: "Person".to_string() })
}

#[test]
fn create_then_commit() {
    let (db, calls) = setup();
    let mut t = Transaction::new(Memory::open(&db, &calls));
    let h = t.create(person(), name("Ann")).unwrap();
    assert_eq!(h.id(), ObjectId(1));
    assert_eq!(h.state(&t), ObjectState::Clean);
    t.commit().0.unwrap();

    let mut t = Transaction::new(Memory::open(&db, &calls));
    let h = t.get(person(), ObjectId(1)).unwrap();
    assert_eq!(h.borrow(&t), &name("Ann"));
    assert_eq!(h.state(&t), ObjectState::Clean);
}

#[test]
fn modify_then_rollback() {
    let (db, calls) = setup();
    let mut t = Transaction::new(Memory::open(&db, &calls));
    t.create(person(), name("Ann")).unwrap();
    t.commit().0.unwrap();

    let mut t = Transaction::new(Memory::open(&db, &calls));
    let h = t.get(person(), ObjectId(1)).unwrap();
    h.borrow_mut(&mut t, 0, Value::String("Bea".to_string()));
    assert_eq!(h.borrow(&t), &name("Bea"));
    t.rollback().0.unwrap();

    let mut t = Transaction::new(Memory::open(&db, &calls));
    let h = t.get(person(), ObjectId(1)).unwrap();
    assert_eq!(h.borrow(&t), &name("Ann"));
}

#[test]
fn delete_then_get_in_same_transaction() {
    let (db, calls) = setup();
    let mut t = Transaction::new(Memory::open(&db, &calls));
    t.create(person(), name("Ann")).unwrap();
    t.commit().0.unwrap();

    let mut t = Transaction::new(Memory::open(&db, &calls));
    let h = t.get(person(), ObjectId(1)).unwrap();
    h.delete(&mut t);
    assert_eq!(t.get(person(), ObjectId(1)).unwrap_err(), not_found(1));
    t.commit().0.unwrap();

    let mut t = Transaction::new(Memory::open(&db, &calls));
    assert_eq!(t.get(person(), ObjectId(1)).unwrap_err(), not_found(1));
}

#[test]
fn two_gets_share_one_entry() {
    let (db, calls) = setup();
    let mut t = Transaction::new(Memory::open(&db, &calls));
    t.create(person(), name("Ann")).unwrap();
    t.commit().0.unwrap();

    let mut t = Transaction::new(Memory::open(&db, &calls));
    let a = t.get(person(), ObjectId(1)).unwrap();
    let b = t.get(person(), ObjectId(1)).unwrap();
    a.borrow_mut(&mut t, 0, Value::String("Cid".to_string()));
    assert_eq!(b.borrow(&t), &name("Cid"));
    assert_eq!(b.state(&t), ObjectState::Modified);
    let selects = calls.borrow().iter().filter(|c| **c == Call::Select(1)).count();
    assert_eq!(selects, 1);
}

#[test]
fn dirty_state_transitions() {
    let (db, calls) = setup();
    let mut t = Transaction::new(Memory::open(&db, &calls));
    let h = t.create(person(), name("Ann")).unwrap();
    assert_eq!(h.state(&t), ObjectState::Clean);
    // a write of the same value still counts as a write
    h.borrow_mut(&mut t, 0, Value::String("Ann".to_string()));
    assert_eq!(h.state(&t), ObjectState::Modified);
    h.borrow_mut(&mut t, 0, Value::String("Bea".to_string()));
    assert_eq!(h.state(&t), ObjectState::Modified);
    h.delete(&mut t);
    assert_eq!(h.state(&t), ObjectState::Removed);
    assert_eq!(t.get(person(), ObjectId(1)).unwrap_err(), not_found(1));
    t.commit().0.unwrap();

    let mut t = Transaction::new(Memory::open(&db, &calls));
    let g = t.create(person(), name("Dan")).unwrap();
    t.commit().0.unwrap();
    let mut t = Transaction::new(Memory::open(&db, &calls));
    let g = t.get(person(), g.id()).unwrap();
    assert_eq!(g.state(&t), ObjectState::Clean);
}

#[test]
fn commit_writes_exactly_what_is_owed() {
    let (db, calls) = setup();
    let mut t = Transaction::new(Memory::open(&db, &calls));
    let a = t.create(person(), name("Ann")).unwrap();
    let b = t.create(person(), name("Bea")).unwrap();
    let c = t.create(person(), name("Cid")).unwrap();
    t.commit().0.unwrap();

    calls.borrow_mut().clear();
    let mut t = Transaction::new(Memory::open(&db, &calls));
    let a = t.get(person(), a.id()).unwrap();
    let b = t.get(person(), b.id()).unwrap();
    let c = t.get(person(), c.id()).unwrap();
    b.borrow_mut(&mut t, 0, Value::String("Bob".to_string()));
    c.delete(&mut t);
    let mut plan = t.pending_writes();
    plan.sort_by_key(|op| match op {
        FlushOp::Update(id) | FlushOp::Delete(id) => id.into_i64(),
    });
    assert_eq!(plan, vec![FlushOp::Update(ObjectId(2)), FlushOp::Delete(ObjectId(3))]);
    calls.borrow_mut().clear();
    t.commit().0.unwrap();
    assert_eq!(
        *calls.borrow(),
        vec![Call::Update(2, name("Bob")), Call::Delete(3), Call::Commit]
    );
    let _ = a;

    let mut t = Transaction::new(Memory::open(&db, &calls));
    let b = t.get(person(), ObjectId(2)).unwrap();
    assert_eq!(b.borrow(&t), &name("Bob"));
    assert_eq!(t.get(person(), ObjectId(3)).unwrap_err(), not_found(3));
}

#[test]
fn failed_write_aborts_commit() {
    let (db, calls) = setup();
    let mut t = Transaction::new(Memory::open(&db, &calls));
    t.create(person(), name("Ann")).unwrap();
    t.commit().0.unwrap();

    let mut m = Memory::open(&db, &calls);
    m.fail_updates = true;
    let mut t = Transaction::new(m);
    let h = t.get(person(), ObjectId(1)).unwrap();
    h.borrow_mut(&mut t, 0, Value::String("Bea".to_string()));
    calls.borrow_mut().clear();
    assert_eq!(t.commit().0.unwrap_err(), Error::LockConflict);
    assert!(!calls.borrow().contains(&Call::Commit));

    let mut t = Transaction::new(Memory::open(&db, &calls));
    let h = t.get(person(), ObjectId(1)).unwrap();
    assert_eq!(h.borrow(&t), &name("Ann"));
}

#[test]
fn create_makes_the_table_once() {
    let (db, calls) = setup();
    let mut t = Transaction::new(Memory::open(&db, &calls));
    t.create(person(), name("Ann")).unwrap();
    t.create(person(), name("Bea")).unwrap();
    let made = calls
        .borrow()
        .iter()
        .filter(|c| **c == Call::CreateTable("person".to_string()))
        .count();
    assert_eq!(made, 1);
}

#[test]
fn get_of_unknown_id_is_not_found_and_leaves_cache() {
    let (db, calls) = setup();
    let mut t = Transaction::new(Memory::open(&db, &calls));
    assert_eq!(t.get(person(), ObjectId(7)).unwrap_err(), not_found(7));
    assert!(t.pending_writes().is_empty());
}

#[test]
fn zero_field_object() {
    let (db, calls) = setup();
    let unit = Schema { table_name: "unit".to_string(), fields: vec![], object_name: "Unit".to_string() };
    let mut t = Transaction::new(Memory::open(&db, &calls));
    let h = t.create(unit.clone(), vec![]).unwrap();
    t.commit().0.unwrap();
    let mut t = Transaction::new(Memory::open(&db, &calls));
    let g = t.get(unit, h.id()).unwrap();
    assert!(g.borrow(&t).is_empty());
}

#[test]
fn rollback_issues_no_writes() {
    let (db, calls) = setup();
    let mut t = Transaction::new(Memory::open(&db, &calls));
    let h = t.create(person(), name("Ann")).unwrap();
    h.borrow_mut(&mut t, 0, Value::String("Bea".to_string()));
    calls.borrow_mut().clear();
    t.rollback().0.unwrap();
    assert_eq!(*calls.borrow(), vec![Call::Rollback]);
}

#[test]
fn touch_marks_a_fieldless_object_modified() {
    let (db, calls) = setup();
    let unit = Schema { table_name: "unit".to_string(), fields: vec![], object_name: "Unit".to_string() };
    let mut t = Transaction::new(Memory::open(&db, &calls));
    let h = t.create(unit, vec![]).unwrap();
    assert_eq!(h.state(&t), ObjectState::Clean);
    h.touch(&mut t);
    assert_eq!(h.state(&t), ObjectState::Modified);
    calls.borrow_mut().clear();
    t.commit().0.unwrap();
    assert_eq!(*calls.borrow(), vec![Call::Update(1, vec![]), Call::Commit]);
}

#[test]
fn delete_makes_no_backend_call() {
    let (db, calls) = setup();
    let mut t = Transaction::new(Memory::open(&db, &calls));
    let h = t.create(person(), name("Ann")).unwrap();
    calls.borrow_mut().clear();
    h.delete(&mut t);
    assert!(t.get(person(), ObjectId(1)).is_err());
    assert!(calls.borrow().is_empty());
}

#[test]
fn get_rejects_a_row_that_does_not_fit() {
    let (db, calls) = setup();
    let mut t = Transaction::new(Memory::open(&db, &calls));
    t.create(person(), name("Ann")).unwrap();
    t.commit().0.unwrap();
    db.borrow_mut().tables.get_mut("person").unwrap().rows.insert(1, vec![Value::Int64(5)]);

    let mut t = Transaction::new(Memory::open(&db, &calls));
    let err = t.get(person(), ObjectId(1)).unwrap_err();
    assert!(matches!(err, Error::UnexpectedType(ref u) if u.column_name == "name" && u.got_type == "BIGINT"));
    assert!(t.pending_writes().is_empty());
}
