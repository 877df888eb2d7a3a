use toydb::executor::{execute, execute_batch, BatchOutcome, ExecutionError, ExecutionResult};
use toydb::sql::{ColumnDef, ColumnType, Sql, SqlStatement};
use toydb::storage::{Database, StorageError, Value};

fn s(text: &str) -> String {
    String::from(text)
}

fn col(name: &str, t: ColumnType) -> ColumnDef {
    ColumnDef { name: s(name), column_type: t }
}

fn vals(items: &[&str]) -> Vec<String> {
    items.iter().map(|x| s(x)).collect()
}

#[test]
fn create_insert_select_example() {
    let mut db = Database::new();
    assert_eq!(db.create_table(&s("users"), &vec![col("id", ColumnType::Id), col("age", ColumnType::Uint8)]), Ok(()));
    assert_eq!(db.insert(&s("users"), &vals(&["200"])), Ok(Some(1)));
    assert_eq!(
        db.insert(&s("users"), &vals(&["300"])),
        Err(StorageError::TypeMismatch { column: s("age"), expected: ColumnType::Uint8, got: s("300") })
    );
    assert_eq!(
        db.select(&s("users"), &vec![]),
        Ok(vec![vec![Value::Id(1), Value::Unsigned(200)]])
    );
}

#[test]
fn create_then_drop_then_select_is_unknown() {
    let mut db = Database::new();
    assert_eq!(db.create_table(&s("t"), &vec![col("a", ColumnType::Int8)]), Ok(()));
    assert_eq!(db.drop_table(&s("t")), Ok(()));
    assert_eq!(db.select(&s("t"), &vec![]), Err(StorageError::UnknownTable { name: s("t") }));
    assert_eq!(db.drop_table(&s("t")), Err(StorageError::UnknownTable { name: s("t") }));
}

#[test]
fn ids_increase_across_failed_inserts() {
    let mut db = Database::new();
    db.create_table(&s("t"), &vec![col("id", ColumnType::Id), col("n", ColumnType::Int8)]).unwrap();
    assert_eq!(db.insert(&s("t"), &vals(&["1"])), Ok(Some(1)));
    assert_eq!(
        db.insert(&s("t"), &vals(&["x"])),
        Err(StorageError::TypeMismatch { column: s("n"), expected: ColumnType::Int8, got: s("x") })
    );
    assert_eq!(db.insert(&s("t"), &vals(&["-128"])), Ok(Some(2)));
    assert_eq!(
        db.insert(&s("t"), &vals(&["1", "2"])),
        Err(StorageError::ColumnCountMismatch { expected: 1, got: 2 })
    );
    assert_eq!(db.insert(&s("t"), &vals(&["127"])), Ok(Some(3)));
    assert_eq!(
        db.select(&s("t"), &vec![s("id")]),
        Ok(vec![vec![Value::Id(1)], vec![Value::Id(2)], vec![Value::Id(3)]])
    );
}

#[test]
fn round_trip_keeps_order_and_types() {
    let mut db = Database::new();
    db.create_table(
        &s("r"),
        &vec![
            col("name", ColumnType::Char255),
            col("id", ColumnType::Id),
            col("small", ColumnType::Int16),
            col("big", ColumnType::Uint64),
        ],
    )
    .unwrap();
    assert_eq!(db.insert(&s("r"), &vals(&["bob", "-300", "18446744073709551615"])), Ok(Some(1)));
    assert_eq!(
        db.select(&s("r"), &vec![]),
        Ok(vec![vec![
            Value::Text(s("bob")),
            Value::Id(1),
            Value::Signed(-300),
            Value::Unsigned(18446744073709551615)
        ]])
    );
    assert_eq!(
        db.select(&s("r"), &vec![s("big"), s("name")]),
        Ok(vec![vec![Value::Unsigned(18446744073709551615), Value::Text(s("bob"))]])
    );
    assert_eq!(
        db.select(&s("r"), &vec![s("nope")]),
        Err(StorageError::UnknownColumn { name: s("nope") })
    );
}

#[test]
fn char255_boundary() {
    let mut db = Database::new();
    db.create_table(&s("c"), &vec![col("v", ColumnType::Char255)]).unwrap();
    let exact = "a".repeat(255);
    assert_eq!(db.insert(&s("c"), &vec![exact.clone()]), Ok(None));
    let over = "a".repeat(256);
    assert_eq!(
        db.insert(&s("c"), &vec![over]),
        Err(StorageError::ValueTooLong { column: s("v"), max: 255 })
    );
    let wide = "é".repeat(128);
    assert_eq!(
        db.insert(&s("c"), &vec![wide]),
        Err(StorageError::ValueTooLong { column: s("v"), max: 255 })
    );
    assert_eq!(db.select(&s("c"), &vec![]), Ok(vec![vec![Value::Text(exact)]]));
}

#[test]
fn integer_ranges() {
    let mut db = Database::new();
    db.create_table(&s("i"), &vec![col("a", ColumnType::Int8), col("b", ColumnType::Uint16)]).unwrap();
    assert_eq!(db.insert(&s("i"), &vals(&["-128", "65535"])), Ok(None));
    assert_eq!(
        db.insert(&s("i"), &vals(&["-129", "0"])),
        Err(StorageError::TypeMismatch { column: s("a"), expected: ColumnType::Int8, got: s("-129") })
    );
    assert_eq!(
        db.insert(&s("i"), &vals(&["0", "-1"])),
        Err(StorageError::TypeMismatch { column: s("b"), expected: ColumnType::Uint16, got: s("-1") })
    );
    assert_eq!(
        db.insert(&s("i"), &vals(&["0", "99999999999999999999999"])),
        Err(StorageError::TypeMismatch {
            column: s("b"),
            expected: ColumnType::Uint16,
            got: s("99999999999999999999999")
        })
    );
    assert_eq!(
        db.insert(&s("i"), &vals(&["+1", "0"])),
        Err(StorageError::TypeMismatch { column: s("a"), expected: ColumnType::Int8, got: s("+1") })
    );
    assert_eq!(db.select(&s("i"), &vec![]), Ok(vec![vec![Value::Signed(-128), Value::Unsigned(65535)]]));
}

#[test]
fn storage_create_table_errors() {
    let mut db = Database::new();
    assert_eq!(
        db.create_table(&s("e"), &vec![]),
        Err(StorageError::EmptyColumnList { table: s("e") })
    );
    assert_eq!(
        db.create_table(&s("d"), &vec![col("a", ColumnType::Int8), col("b", ColumnType::Int8), col("a", ColumnType::Id)]),
        Err(StorageError::DuplicateColumnName { name: s("a") })
    );
    assert_eq!(db.create_table(&s("t"), &vec![col("a", ColumnType::Int8)]), Ok(()));
    assert_eq!(
        db.create_table(&s("t"), &vec![col("b", ColumnType::Int8)]),
        Err(StorageError::TableAlreadyExists { name: s("t") })
    );
}

#[test]
fn insert_into_missing_table_creates_nothing() {
    let mut db = Database::new();
    assert_eq!(
        db.insert(&s("nosuch"), &vals(&["1"])),
        Err(StorageError::UnknownTable { name: s("nosuch") })
    );
    assert_eq!(db.select(&s("nosuch"), &vec![]), Err(StorageError::UnknownTable { name: s("nosuch") }));
}

#[test]
fn executor_runs_statements() {
    let mut db = Database::new();
    let create = SqlStatement::CreateTable { name: s("t"), columns: vec![col("a", ColumnType::Uint32)] };
    assert_eq!(execute(&mut db, &create), Ok(ExecutionResult::Created));
    let insert = SqlStatement::Insert { table: s("t"), values: vals(&["7"]) };
    assert_eq!(execute(&mut db, &insert), Ok(ExecutionResult::Inserted { id: None }));
    let select = SqlStatement::Select { table: s("t"), columns: vec![] };
    assert_eq!(
        execute(&mut db, &select),
        Ok(ExecutionResult::Rows { rows: vec![vec![Value::Unsigned(7)]] })
    );
    let drop = SqlStatement::Drop { table: s("t") };
    assert_eq!(execute(&mut db, &drop), Ok(ExecutionResult::Dropped));
    assert_eq!(
        execute(&mut db, &drop),
        Err(ExecutionError::Storage(StorageError::UnknownTable { name: s("t") }))
    );
}

#[test]
fn batch_stops_at_first_failure_and_keeps_earlier_effects() {
    let mut db = Database::new();
    let sql = Sql::parse("create table t (a int8); insert into t values (1); insert into t values (1000); insert into t values (2)")
        .unwrap();
    let outcome = execute_batch(&mut db, &sql);
    assert_eq!(
        outcome,
        BatchOutcome {
            results: vec![ExecutionResult::Created, ExecutionResult::Inserted { id: None }],
            error: Some(ExecutionError::Storage(StorageError::TypeMismatch {
                column: s("a"),
                expected: ColumnType::Int8,
                got: s("1000")
            })),
        }
    );
    assert_eq!(db.select(&s("t"), &vec![]), Ok(vec![vec![Value::Signed(1)]]));
}

#[test]
fn storage_error_text() {
    assert_eq!(StorageError::ColumnCountMismatch { expected: 2, got: 10 }.to_string(), "expected 2 values, got 10");
    assert_eq!(
        StorageError::ValueTooLong { column: s("v"), max: 255 }.to_string(),
        "value for column v is longer than 255 bytes"
    );
}

#[test]
fn names_compare_without_case() {
    let mut db = Database::new();
    assert_eq!(db.create_table(&s("Users"), &vec![col("Age", ColumnType::Uint8)]), Ok(()));
    assert_eq!(
        db.create_table(&s("USERS"), &vec![col("x", ColumnType::Int8)]),
        Err(StorageError::TableAlreadyExists { name: s("USERS") })
    );
    assert_eq!(
        db.create_table(&s("other"), &vec![col("a", ColumnType::Int8), col("A", ColumnType::Int8)]),
        Err(StorageError::DuplicateColumnName { name: s("A") })
    );
    assert_eq!(db.insert(&s("users"), &vals(&["9"])), Ok(None));
    assert_eq!(db.select(&s("uSeRs"), &vec![s("age")]), Ok(vec![vec![Value::Unsigned(9)]]));
    assert_eq!(db.drop_table(&s("users")), Ok(()));
    assert_eq!(db.select(&s("Users"), &vec![]), Err(StorageError::UnknownTable { name: s("Users") }));
}
