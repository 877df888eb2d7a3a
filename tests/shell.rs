use toydb::shell::{repl_execute, repl_parse_line, sql_parse_line, Context, ParserError, ReplCommand};
use toydb::sql::SqlStatement;

#[test]
fn main_test_repl_parse_commands() {
    assert_eq!(repl_parse_line(".exit"), Ok(ReplCommand::Exit));
    assert_eq!(
        repl_parse_line("something"),
        Err(ParserError::UnknownCommand(String::from("something")))
    );
    assert_eq!(repl_parse_line(""), Err(ParserError::EmptyCommand))
}

#[test]
fn shell_takes_one_statement() {
    assert_eq!(
        sql_parse_line("drop table t;"),
        Ok(SqlStatement::Drop { table: String::from("t") })
    );
    assert_eq!(
        sql_parse_line("drop table a; drop table b"),
        Err(ParserError::UnknownCommand(String::from("drop table a; drop table b")))
    );
    assert_eq!(
        repl_parse_line(".quit"),
        Err(ParserError::UnknownCommand(String::from(".quit")))
    );
}

#[test]
fn shell_runs_statements_and_exits() {
    let mut context = Context::new();
    let create = repl_parse_line("create table t (a int8)").unwrap();
    repl_execute(&create, &mut context);
    assert!(context.repl_running);
    let again = repl_parse_line("create table t (a int8)").unwrap();
    repl_execute(&again, &mut context);
    assert!(context.repl_running);
    repl_execute(&ReplCommand::Exit, &mut context);
    assert!(!context.repl_running);
}

#[test]
fn shell_error_text() {
    assert_eq!(ParserError::EmptyCommand.to_string(), "Empty command provided.");
    assert_eq!(
        ParserError::UnknownCommand(String::from("x")).to_string(),
        "Unknown command 'x'."
    );
}
