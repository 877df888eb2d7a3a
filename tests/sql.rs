use toydb::sql::{parse_lowercase_line, ColumnDef, ColumnType, ParserError, Sql, SqlStatement};

fn s(text: &str) -> String {
    String::from(text)
}

#[test]
fn parses_insert() {
    assert_eq!(
        parse_lowercase_line("insert into users values (1, bob , 3)"),
        Ok(SqlStatement::Insert { table: s("users"), values: vec![s("1"), s("bob"), s("3")] })
    );
    assert_eq!(
        parse_lowercase_line("insert into users values ()"),
        Ok(SqlStatement::Insert { table: s("users"), values: vec![] })
    );
}

#[test]
fn insert_errors() {
    assert_eq!(parse_lowercase_line("insert into users (1)"), Err(ParserError::MissingValuesClauseError));
    assert_eq!(
        parse_lowercase_line("insert into  values (1)"),
        Err(ParserError::MissingTableNameError { statement: s("insert") })
    );
    assert_eq!(
        parse_lowercase_line("insert into t values 1, 2"),
        Err(ParserError::MalformedValueListError { text: s("1, 2") })
    );
    assert_eq!(
        parse_lowercase_line("insert into t values (1,,2)"),
        Err(ParserError::MalformedValueListError { text: s("(1,,2)") })
    );
}

#[test]
fn parses_select() {
    assert_eq!(
        parse_lowercase_line("select * from users"),
        Ok(SqlStatement::Select { table: s("users"), columns: vec![] })
    );
    assert_eq!(
        parse_lowercase_line("select a, b from users"),
        Ok(SqlStatement::Select { table: s("users"), columns: vec![s("a"), s("b")] })
    );
    assert_eq!(
        parse_lowercase_line("select a,,b from users"),
        Err(ParserError::MalformedColumnListError { text: s("a,,b") })
    );
    assert_eq!(
        parse_lowercase_line("select a from"),
        Err(ParserError::MissingTableNameError { statement: s("select") })
    );
}

#[test]
fn parses_drop() {
    assert_eq!(parse_lowercase_line("drop table users"), Ok(SqlStatement::Drop { table: s("users") }));
    assert_eq!(
        parse_lowercase_line("drop table   "),
        Err(ParserError::MissingTableNameError { statement: s("drop") })
    );
}

#[test]
fn parses_create_table() {
    assert_eq!(
        parse_lowercase_line("create table users (id id, name char255, age uint8, t int64)"),
        Ok(SqlStatement::CreateTable {
            name: s("users"),
            columns: vec![
                ColumnDef { name: s("id"), column_type: ColumnType::Id },
                ColumnDef { name: s("name"), column_type: ColumnType::Char255 },
                ColumnDef { name: s("age"), column_type: ColumnType::Uint8 },
                ColumnDef { name: s("t"), column_type: ColumnType::Int64 },
            ],
        })
    );
}

#[test]
fn create_table_errors() {
    assert_eq!(
        parse_lowercase_line("create table users (a text)"),
        Err(ParserError::UnknownColumnTypeError { token: s("text") })
    );
    assert_eq!(
        parse_lowercase_line("create table users (a)"),
        Err(ParserError::MalformedColumnListError { text: s("a") })
    );
    assert_eq!(
        parse_lowercase_line("create table users a int8"),
        Err(ParserError::MalformedColumnListError { text: s("users a int8") })
    );
    assert_eq!(
        parse_lowercase_line("create table (a int8)"),
        Err(ParserError::MissingTableNameError { statement: s("create table") })
    );
}

#[test]
fn unknown_statement() {
    assert_eq!(
        parse_lowercase_line("update t"),
        Err(ParserError::UnknownStatementError { statement: s("update t") })
    );
}

#[test]
fn batch_lowercases_and_skips_blank_bodies() {
    assert_eq!(
        Sql::parse(" DROP TABLE A ;; \t;Drop Table b;"),
        Ok(Sql {
            statements: vec![SqlStatement::Drop { table: s("a") }, SqlStatement::Drop { table: s("b") }]
        })
    );
    assert_eq!(Sql::parse("  ;  "), Ok(Sql { statements: vec![] }));
}

#[test]
fn batch_fails_with_first_error() {
    assert_eq!(
        Sql::parse("drop table a; bogus; insert into t (1)"),
        Err(ParserError::UnknownStatementError { statement: s("bogus") })
    );
    assert_eq!(
        Sql::parse("drop table a; insert into t (1); bogus"),
        Err(ParserError::MissingValuesClauseError)
    );
}

#[test]
fn parse_is_deterministic() {
    let text = "create table t (id id, a int8); insert into t values (5); select * from t";
    assert_eq!(Sql::parse(text), Sql::parse(text));
    assert_eq!(Sql::parse("nonsense"), Sql::parse("nonsense"));
}

#[test]
fn error_text() {
    assert_eq!(ParserError::MissingValuesClauseError.to_string(), "insert statement must contain a 'values' clause");
    assert_eq!(
        ParserError::MissingTableNameError { statement: s("drop") }.to_string(),
        "'drop' statement must have a table name specified"
    );
    assert_eq!(
        ParserError::UnknownStatementError { statement: s("x") }.to_string(),
        "unknown SQL statement: x"
    );
}
