//! A single-statement front end: each line is `.exit` or exactly one statement,
//! and anything it cannot take is reported as an unknown command.
use vstd::prelude::*;
use vstd::string::{StrSliceExecFns, StringExecFns};
use crate::executor::{execute, execute_spec};
use crate::sql::{parse_batch, result_view, Sql, SqlStatement, StatementModel};
use crate::storage::{db_wf, Database, TableModel};
use crate::text::lower_of;

verus! {

/// The state of a session: whether the loop goes on, and the database.
pub struct Context {
    pub repl_running: bool,
    pub database: Database,
}

impl Context {
    /// A running session with an empty database.
    pub fn new() -> (r: Context)
        ensures
            r.repl_running,
            r.database@ == Seq::<TableModel>::empty(),
            db_wf(r.database@),
    {
        Context { repl_running: true, database: Database::new() }
    }
}

/// What one line asks for.
#[derive(Debug, PartialEq, Eq)]
pub enum ReplCommand {
    Exit,
    SqlCommand(SqlStatement),
}

/// A command as a value.
pub enum LineCommand {
    Exit,
    SqlCommand(StatementModel),
}

impl View for ReplCommand {
    type V = LineCommand;

    open spec fn view(&self) -> LineCommand {
        match self {
            ReplCommand::Exit => LineCommand::Exit,
            ReplCommand::SqlCommand(s) => LineCommand::SqlCommand(s@),
        }
    }
}

/// Why a line could not be taken.
#[derive(Debug, PartialEq, Eq)]
pub enum ParserError {
    EmptyCommand,
    UnknownCommand(String),
}

/// A line error as a value.
pub enum LineError {
    EmptyCommand,
    UnknownCommand(Seq<char>),
}

impl View for ParserError {
    type V = LineError;

    open spec fn view(&self) -> LineError {
        match self {
            ParserError::EmptyCommand => LineError::EmptyCommand,
            ParserError::UnknownCommand(s) => LineError::UnknownCommand(s@),
        }
    }
}

/// A line error as text.
pub open spec fn line_error_text(e: LineError) -> Seq<char> {
    match e {
        LineError::EmptyCommand => "Empty command provided."@,
        LineError::UnknownCommand(c) => "Unknown command '"@ + c + "'."@,
    }
}

impl ParserError {
    /// The error as text.
    pub fn to_string(&self) -> (r: String)
        ensures
            r@ == line_error_text(self@),
    {
        match self {
            ParserError::EmptyCommand => String::from_str("Empty command provided."),
            ParserError::UnknownCommand(c) => String::from_str("Unknown command '").concat(c.as_str()).concat("'."),
        }
    }
}

/// The one statement of a line, when it holds exactly one that parses.
pub open spec fn sql_line_spec(line: Seq<char>) -> Result<StatementModel, LineError> {
    match parse_batch(lower_of(line)) {
        Ok(stmts) => if stmts.len() == 1 {
            Ok(stmts[0])
        } else {
            Err(LineError::UnknownCommand(line))
        },
        Err(_) => Err(LineError::UnknownCommand(line)),
    }
}

/// What a line asks for: an error when empty; a directive when it starts with
/// `.`, of which only `.exit` is known; otherwise one statement.
pub open spec fn line_spec(line: Seq<char>) -> Result<LineCommand, LineError> {
    if line.len() == 0 {
        Err(LineError::EmptyCommand)
    } else if line[0] == '.' {
        if line == ".exit"@ {
            Ok(LineCommand::Exit)
        } else {
            Err(LineError::UnknownCommand(line))
        }
    } else {
        match sql_line_spec(line) {
            Ok(s) => Ok(LineCommand::SqlCommand(s)),
            Err(e) => Err(e),
        }
    }
}

/// Reads one line.
pub fn repl_parse_line(line: &str) -> (r: Result<ReplCommand, ParserError>)
    ensures
        result_view(r) == line_spec(line@),
{
    if line.unicode_len() == 0 {
        return Err(ParserError::EmptyCommand);
    }
    if line.get_char(0) == '.' {
        let owned = String::from_str(line);
        if owned == String::from_str(".exit") {
            Ok(ReplCommand::Exit)
        } else {
            Err(ParserError::UnknownCommand(owned))
        }
    } else {
        match sql_parse_line(line) {
            Ok(s) => Ok(ReplCommand::SqlCommand(s)),
            Err(e) => Err(e),
        }
    }
}

/// Reads the one statement of a line.
pub fn sql_parse_line(line: &str) -> (r: Result<SqlStatement, ParserError>)
    ensures
        result_view(r) == sql_line_spec(line@),
{
    match Sql::parse(line) {
        Ok(sql) => {
            let mut statements = sql.statements;
            if statements.len() == 1 {
                Ok(statements.remove(0))
            } else {
                Err(ParserError::UnknownCommand(String::from_str(line)))
            }
        },
        Err(_) => Err(ParserError::UnknownCommand(String::from_str(line))),
    }
}

/// Runs one command; `.exit` stops the loop.
pub fn repl_execute(command: &ReplCommand, context: &mut Context)
    requires
        db_wf(old(context).database@),
    ensures
        db_wf(final(context).database@),
        match command@ {
            LineCommand::Exit => !final(context).repl_running && final(context).database@ == old(context).database@,
            LineCommand::SqlCommand(s) => final(context).repl_running == old(context).repl_running
                && final(context).database@ == execute_spec(old(context).database@, s).0,
        },
{
    match command {
        ReplCommand::Exit => context.repl_running = false,
        ReplCommand::SqlCommand(statement) => sql_execute(statement, context),
    }
}

/// Runs one statement against the session's database.
pub fn sql_execute(statement: &SqlStatement, context: &mut Context)
    requires
        db_wf(old(context).database@),
    ensures
        db_wf(final(context).database@),
        final(context).repl_running == old(context).repl_running,
        final(context).database@ == execute_spec(old(context).database@, statement@).0,
{
    let _ = execute(&mut context.database, statement);
}

} // verus!
