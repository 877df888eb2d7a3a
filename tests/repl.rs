use toydb::repl::{execute, parse, parse_and_execute, Context, ReplCommand, ReplError};
use toydb::sql::{ParserError, Sql, SqlStatement};

#[test]
fn repl_test_repl_parse_commands() {
    assert_eq!(parse(".exit"), Ok(ReplCommand::Exit));
    assert_eq!(
        parse(".something"),
        Err(ReplError::UnknownCommandError {
            command: String::from(".something")
        })
    );
    assert_eq!(parse(""), Ok(ReplCommand::DoNothing))
}

#[test]
fn test_repl_execute_commands() {
    let mut context = Context::new();
    let result = execute(&ReplCommand::Exit, &mut context);
    assert_eq!(result, "Bye bye");
    assert_eq!(context.running, false);

    let result = execute(&ReplCommand::DoNothing, &mut context);
    assert_eq!(result, "");
}

#[test]
fn test_repl_returns_message() {
    let mut context = Context::new();
    let result = parse_and_execute(".something", &mut context);
    assert_eq!(result, "unknown command .something");

    let result = parse_and_execute(".exit", &mut context);
    assert_eq!(result, "Bye bye");
}

#[test]
fn repl_parses_sql_lines() {
    assert_eq!(
        parse("DROP TABLE Users"),
        Ok(ReplCommand::SqlCommand(Sql {
            statements: vec![SqlStatement::Drop { table: String::from("users") }]
        }))
    );
    assert_eq!(
        parse("frobnicate"),
        Err(ReplError::SqlParserError {
            error: ParserError::UnknownStatementError { statement: String::from("frobnicate") }
        })
    );
}

#[test]
fn repl_session_example() {
    let mut context = Context::new();
    assert_eq!(
        parse_and_execute("create table users (id id, age uint8);", &mut context),
        "created"
    );
    assert_eq!(
        parse_and_execute("insert into users values (200);", &mut context),
        "inserted with id 1"
    );
    assert_eq!(
        parse_and_execute("insert into users values (300);", &mut context),
        "error: value 300 does not fit column age of type uint8"
    );
    assert_eq!(parse_and_execute("select * from users;", &mut context), "1 | 200");
    assert_eq!(
        parse_and_execute("select age from users; drop table users; select * from users", &mut context),
        "200\ndropped\nerror: unknown table: users"
    );
    assert!(context.running);
}

#[test]
fn repl_exit_ends_session_whatever_came_before() {
    let mut context = Context::new();
    assert_eq!(
        parse_and_execute("insert into nosuch values (1)", &mut context),
        "error: unknown table: nosuch"
    );
    assert_eq!(
        parse_and_execute("select", &mut context),
        "sql parsing failed: 'select' statement must have a table name specified"
    );
    assert!(context.running);
    assert_eq!(parse_and_execute(".exit", &mut context), "Bye bye");
    assert!(!context.running);
}

#[test]
fn repl_blank_line_does_nothing() {
    let mut context = Context::new();
    assert_eq!(parse_and_execute("", &mut context), "");
    assert!(context.running);
}

#[test]
fn repl_renders_values() {
    let mut context = Context::new();
    assert_eq!(
        parse_and_execute("create table n (id id, a int32, b char255, c uint64)", &mut context),
        "created"
    );
    assert_eq!(parse_and_execute("select * from n", &mut context), "no rows");
    assert_eq!(
        parse_and_execute("insert into n values (-2147483648, Hello World, 0); insert into n values (7, x, 10)", &mut context),
        "inserted with id 1\ninserted with id 2"
    );
    assert_eq!(
        parse_and_execute("select c, a, b, id from n", &mut context),
        "0 | -2147483648 | hello world | 1\n10 | 7 | x | 2"
    );
    assert_eq!(
        parse_and_execute("insert into n values (1)", &mut context),
        "error: expected 3 values, got 1"
    );
}
