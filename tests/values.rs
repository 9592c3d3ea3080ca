use orm::object::row_fits;
use orm::error::{check_row, find_column_name, map_backend_error, map_rusqlite_error, map_rusqlite_error_with_id};
use orm::storage::{create_table_sql, delete_sql, insert_sql, list_fields, select_sql, update_sql};
use orm::{
    BackendError, BackendErrorKind, DataType, Error, Field, MissingColumnError, NotFoundError,
    ObjectId, Schema, ToDataType, UnexpectedTypeError, Value,
};

fn field(column: &str, data_type: DataType, attr: &str) -> Field {
    Field { column_name: column.to_string(), data_type, attr_name: attr.to_string() }
}

fn item() -> Schema {
    Schema {
        table_name: "item".to_string(),
        fields: vec![
            field("label", DataType::String, "label"),
            field("blob", DataType::Bytes, "payload"),
            field("count", DataType::Int64, "count"),
            field("ratio", DataType::Float64, "ratio"),
            field("done", DataType::Bool, "done"),
        ],
        object_name: "Item".to_string(),
    }
}

fn unit() -> Schema {
    Schema { table_name: "unit".to_string(), fields: vec![], object_name: "Unit".to_string() }
}

fn failure(message: Option<&str>, busy: bool) -> BackendError {
    BackendError {
        kind: BackendErrorKind::Failure { busy, message: message.map(|m| m.to_string()) },
        description: "engine failure".to_string(),
    }
}

#[test]
fn scalar_round_trip() {
    assert_eq!(Value::from("Ann".to_string()).into_string(), "Ann");
    assert_eq!(Value::from(vec![1u8, 2, 3]).into_bytes(), vec![1u8, 2, 3]);
    assert_eq!(Value::from(-42i64).into_i64(), -42);
    assert_eq!(Value::from(true).into_bool(), true);
    let x: f64 = 2.5;
    assert_eq!(f64::from_bits(Value::Float64(x.to_bits()).into_f64_bits()), 2.5);
    assert_eq!(Value::from(7i64).data_type(), i64::data_type());
    assert_eq!(Value::from("a".to_string()).data_type(), String::data_type());
    assert_eq!(Value::from(vec![0u8]).data_type(), <Vec<u8>>::data_type());
    assert_eq!(Value::from(false).data_type(), bool::data_type());
}

#[test]
fn object_id_round_trip() {
    assert_eq!(ObjectId::from(17).into_i64(), 17);
}

#[test]
fn column_definitions() {
    let s = item();
    let defs: Vec<String> = s.fields.iter().map(|f| f.get_create_sql()).collect();
    assert_eq!(defs, vec!["label TEXT", "blob BLOB", "count BIGINT", "ratio REAL", "done TINYINT"]);
}

#[test]
fn statements() {
    let s = item();
    assert_eq!(list_fields(&s), "label,blob,count,ratio,done");
    assert_eq!(
        create_table_sql(&s),
        "CREATE TABLE item(id INTEGER PRIMARY KEY AUTOINCREMENT,label TEXT,blob BLOB,count BIGINT,ratio REAL,done TINYINT)"
    );
    assert_eq!(
        insert_sql(&s),
        "INSERT INTO item(label,blob,count,ratio,done) VALUES(?1,?2,?3,?4,?5)"
    );
    assert_eq!(
        update_sql(&s).unwrap(),
        "UPDATE item SET label = ?1,blob = ?2,count = ?3,ratio = ?4,done = ?5 WHERE id = ?6"
    );
    assert_eq!(select_sql(&s), "SELECT label,blob,count,ratio,done FROM item WHERE id = ?1");
    assert_eq!(delete_sql(&s), "DELETE FROM item WHERE id = ?1");
}

#[test]
fn statements_without_fields() {
    let s = unit();
    assert_eq!(list_fields(&s), "");
    assert_eq!(create_table_sql(&s), "CREATE TABLE unit(id INTEGER PRIMARY KEY AUTOINCREMENT)");
    assert_eq!(insert_sql(&s), "INSERT INTO unit DEFAULT VALUES");
    assert_eq!(update_sql(&s), None);
    assert_eq!(select_sql(&s), "SELECT 1 FROM unit WHERE id = ?1");
}

#[test]
fn placeholders_past_nine() {
    let fields: Vec<Field> = (0..11).map(|i| field(&format!("c{}", i), DataType::Int64, "x")).collect();
    let s = Schema { table_name: "wide".to_string(), fields, object_name: "Wide".to_string() };
    assert!(insert_sql(&s).ends_with("VALUES(?1,?2,?3,?4,?5,?6,?7,?8,?9,?10,?11)"));
    assert!(update_sql(&s).unwrap().ends_with("c10 = ?11 WHERE id = ?12"));
}

#[test]
fn column_names_in_messages() {
    assert_eq!(find_column_name("no such column: ratio"), Some("ratio"));
    assert_eq!(find_column_name("table item has no column named blob"), Some("blob"));
    assert_eq!(find_column_name("no such table: item"), None);
    assert_eq!(find_column_name(""), None);
}

#[test]
fn unexpected_type_names_the_field() {
    let e = map_rusqlite_error(
        BackendError {
            kind: BackendErrorKind::InvalidColumnType { index: 2, got_type: "Text".to_string() },
            description: "invalid column type".to_string(),
        },
        &item(),
    );
    assert_eq!(
        e,
        Error::UnexpectedType(UnexpectedTypeError {
            object_name: "Item".to_string(),
            attr_name: "count".to_string(),
            table_name: "item".to_string(),
            column_name: "count".to_string(),
            expected_type: DataType::Int64,
            got_type: "Text".to_string(),
        })
    );
}

#[test]
fn unexpected_type_out_of_range_is_storage() {
    let e = map_rusqlite_error(
        BackendError {
            kind: BackendErrorKind::InvalidColumnType { index: 9, got_type: "Text".to_string() },
            description: "invalid column type".to_string(),
        },
        &item(),
    );
    assert_eq!(e, Error::Storage("invalid column type".to_string()));
}

#[test]
fn missing_column_names_the_field() {
    let e = map_rusqlite_error(failure(Some("table item has no column named blob"), false), &item());
    assert_eq!(
        e,
        Error::MissingColumn(MissingColumnError {
            object_name: "Item".to_string(),
            attr_name: "payload".to_string(),
            table_name: "item".to_string(),
            column_name: "blob".to_string(),
        })
    );
    let e = map_rusqlite_error(failure(Some("no such column: nothing"), false), &item());
    assert_eq!(e, Error::Storage("engine failure".to_string()));
}

#[test]
fn busy_is_lock_conflict() {
    assert_eq!(map_backend_error(failure(None, true)), Error::LockConflict);
    assert_eq!(map_rusqlite_error(failure(Some("database is locked"), true), &item()), Error::LockConflict);
    assert_eq!(
        map_backend_error(failure(None, false)),
        Error::Storage("engine failure".to_string())
    );
    let other = BackendError { kind: BackendErrorKind::Other, description: "io".to_string() };
    assert_eq!(map_backend_error(other), Error::Storage("io".to_string()));
}

#[test]
fn no_rows_is_not_found() {
    let e = map_rusqlite_error_with_id(
        BackendError { kind: BackendErrorKind::NoRows, description: "none".to_string() },
        &item(),
        ObjectId(5),
    );
    assert_eq!(
        e,
        Error::NotFound(NotFoundError { object_id: ObjectId(5), object_name: "Item".to_string() })
    );
    let e = map_rusqlite_error(
        BackendError { kind: BackendErrorKind::NoRows, description: "none".to_string() },
        &item(),
    );
    assert_eq!(e, Error::Storage("none".to_string()));
}

#[test]
fn rows_that_fit_a_schema() {
    let row = vec![
        Value::String("a".to_string()),
        Value::Bytes(vec![1]),
        Value::Int64(3),
        Value::Float64(0),
        Value::Bool(true),
    ];
    assert!(row_fits(&item(), &row));
    assert!(!row_fits(&item(), &row[..2].to_vec()));
    assert!(!row_fits(&item(), &vec![Value::Int64(1); 5]));
    assert!(row_fits(&unit(), &vec![]));
}

#[test]
fn check_row_reports_the_first_mismatch() {
    let s = item();
    let good = vec![
        Value::String("a".to_string()),
        Value::Bytes(vec![1]),
        Value::Int64(3),
        Value::Float64(0),
        Value::Bool(true),
    ];
    assert_eq!(check_row(&s, &good), Ok(()));
    let mut wrong = good.clone();
    wrong[2] = Value::String("3".to_string());
    assert_eq!(
        check_row(&s, &wrong),
        Err(Error::UnexpectedType(UnexpectedTypeError {
            object_name: "Item".to_string(),
            attr_name: "count".to_string(),
            table_name: "item".to_string(),
            column_name: "count".to_string(),
            expected_type: DataType::Int64,
            got_type: "TEXT".to_string(),
        }))
    );
    assert_eq!(
        check_row(&s, &good[..1].to_vec()),
        Err(Error::MissingColumn(MissingColumnError {
            object_name: "Item".to_string(),
            attr_name: "payload".to_string(),
            table_name: "item".to_string(),
            column_name: "blob".to_string(),
        }))
    );
    let mut long = good.clone();
    long.push(Value::Int64(9));
    assert!(matches!(check_row(&s, &long), Err(Error::Storage(_))));
}
