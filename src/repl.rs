//! One turn of the command loop: a line is either a directive (`.exit`), blank,
//! or a batch of statements, and every turn yields the text to print.
use vstd::prelude::*;
use vstd::string::{StrSliceExecFns, StringExecFns};
use crate::executor::{execute_batch, ExecutionError, run_spec, results_view, ResultModel};
use crate::render::{join_strings, outcome_text, parse_error_text, result_string, result_text};
use crate::sql::{parse_batch, result_view, strings_view, ParseErrorModel, ParserError, Sql, StatementModel};
use crate::storage::{db_wf, Database, TableModel};
use crate::text::lower_of;

verus! {

/// The state of a session: whether the loop goes on, and the database.
pub struct Context {
    pub running: bool,
    pub database: Database,
}

impl Context {
    /// A running session with an empty database.
    pub fn new() -> (r: Context)
        ensures
            r.running,
            r.database@ == Seq::<TableModel>::empty(),
            db_wf(r.database@),
    {
        Context { running: true, database: Database::new() }
    }
}

/// What one line asks for.
#[derive(Debug, PartialEq, Eq)]
pub enum ReplCommand {
    Exit,
    DoNothing,
    SqlCommand(Sql),
}

/// A command as a value.
pub enum CommandModel {
    Exit,
    DoNothing,
    SqlCommand(Seq<StatementModel>),
}

impl View for ReplCommand {
    type V = CommandModel;

    open spec fn view(&self) -> CommandModel {
        match self {
            ReplCommand::Exit => CommandModel::Exit,
            ReplCommand::DoNothing => CommandModel::DoNothing,
            ReplCommand::SqlCommand(sql) => CommandModel::SqlCommand(sql@),
        }
    }
}

/// Why a line could not be understood.
#[derive(Debug, PartialEq, Eq)]
pub enum ReplError {
    UnknownCommandError { command: String },
    SqlParserError { error: ParserError },
}

/// A line error as a value.
pub enum ReplErrorModel {
    UnknownCommand(Seq<char>),
    SqlParser(ParseErrorModel),
}

impl View for ReplError {
    type V = ReplErrorModel;

    open spec fn view(&self) -> ReplErrorModel {
        match self {
            ReplError::UnknownCommandError { command } => ReplErrorModel::UnknownCommand(command@),
            ReplError::SqlParserError { error } => ReplErrorModel::SqlParser(error@),
        }
    }
}

/// A line error as text.
pub open spec fn repl_error_text(e: ReplErrorModel) -> Seq<char> {
    match e {
        ReplErrorModel::UnknownCommand(c) => "unknown command "@ + c,
        ReplErrorModel::SqlParser(p) => "sql parsing failed: "@ + parse_error_text(p),
    }
}

impl ReplError {
    /// The error as text.
    pub fn to_string(&self) -> (r: String)
        ensures
            r@ == repl_error_text(self@),
    {
        match self {
            ReplError::UnknownCommandError { command } => String::from_str("unknown command ").concat(command.as_str()),
            ReplError::SqlParserError { error } => String::from_str("sql parsing failed: ").concat(
                error.to_string().as_str(),
            ),
        }
    }
}

/// What a line asks for: nothing when blank; a directive when it starts with
/// `.`, of which only `.exit` is known; otherwise a batch of statements.
pub open spec fn parse_spec(line: Seq<char>) -> Result<CommandModel, ReplErrorModel> {
    if line.len() == 0 {
        Ok(CommandModel::DoNothing)
    } else if line[0] == '.' {
        if line == ".exit"@ {
            Ok(CommandModel::Exit)
        } else {
            Err(ReplErrorModel::UnknownCommand(line))
        }
    } else {
        match parse_batch(lower_of(line)) {
            Ok(stmts) => Ok(CommandModel::SqlCommand(stmts)),
            Err(e) => Err(ReplErrorModel::SqlParser(e)),
        }
    }
}

/// Reads one line.
pub fn parse(line: &str) -> (r: Result<ReplCommand, ReplError>)
    ensures
        result_view(r) == parse_spec(line@),
{
    if line.unicode_len() == 0 {
        return Ok(ReplCommand::DoNothing);
    }
    if line.get_char(0) == '.' {
        let owned = String::from_str(line);
        if owned == String::from_str(".exit") {
            Ok(ReplCommand::Exit)
        } else {
            Err(ReplError::UnknownCommandError { command: owned })
        }
    } else {
        match Sql::parse(line) {
            Ok(sql) => Ok(ReplCommand::SqlCommand(sql)),
            Err(error) => Err(ReplError::SqlParserError { error }),
        }
    }
}

/// Runs one command; `.exit` stops the loop, a batch runs against the database.
pub fn execute(command: &ReplCommand, context: &mut Context) -> (r: String)
    requires
        db_wf(old(context).database@),
    ensures
        db_wf(final(context).database@),
        match command@ {
            CommandModel::Exit => !final(context).running && final(context).database@ == old(context).database@
                && r@ == "Bye bye"@,
            CommandModel::DoNothing => final(context).running == old(context).running
                && final(context).database@ == old(context).database@ && r@ == Seq::<char>::empty(),
            CommandModel::SqlCommand(stmts) => {
                let (d, rs, err) = run_spec(old(context).database@, stmts);
                final(context).running == old(context).running && final(context).database@ == d && r@
                    == outcome_text(rs, err)
            },
        },
{
    match command {
        ReplCommand::Exit => {
            context.running = false;
            String::from_str("Bye bye")
        },
        ReplCommand::DoNothing => {
            let r = String::new();
            assert(r@ =~= Seq::<char>::empty());
            r
        },
        ReplCommand::SqlCommand(sql) => {
            let outcome = execute_batch(&mut context.database, sql);
            let mut parts: Vec<String> = Vec::new();
            let mut k: usize = 0;
            while k < outcome.results.len()
                invariant
                    k <= outcome.results@.len(),
                    parts@.len() == k,
                    forall|j: int| 0 <= j < k ==> (#[trigger] parts@[j])@ == result_text(outcome.results@[j]@),
                decreases outcome.results@.len() - k,
            {
                parts.push(result_string(&outcome.results[k]));
                k = k + 1;
            }
            let ghost texts = results_view(outcome.results@).map_values(|x: ResultModel| result_text(x));
            assert(strings_view(parts@) =~= texts);
            match &outcome.error {
                Some(ExecutionError::Storage(e)) => {
                    let line = String::from_str("error: ").concat(e.to_string().as_str());
                    let ghost prev = parts@;
                    parts.push(line);
                    assert(strings_view(parts@) =~= texts.push(line@));
                },
                None => {},
            }
            join_strings(&parts, "\n")
        },
    }
}

/// Reads and runs one line, and gives the text to print: the error when the
/// line cannot be read, which leaves the session as it was.
pub fn parse_and_execute(line: &str, context: &mut Context) -> (r: String)
    requires
        db_wf(old(context).database@),
    ensures
        db_wf(final(context).database@),
        line@ == ".exit"@ ==> !final(context).running && r@ == "Bye bye"@,
        match parse_spec(line@) {
            Err(e) => r@ == repl_error_text(e) && final(context).running == old(context).running
                && final(context).database@ == old(context).database@,
            Ok(CommandModel::Exit) => !final(context).running && final(context).database@ == old(context).database@
                && r@ == "Bye bye"@,
            Ok(CommandModel::DoNothing) => final(context).running == old(context).running
                && final(context).database@ == old(context).database@ && r@ == Seq::<char>::empty(),
            Ok(CommandModel::SqlCommand(stmts)) => {
                let (d, rs, err) = run_spec(old(context).database@, stmts);
                final(context).running == old(context).running && final(context).database@ == d && r@
                    == outcome_text(rs, err)
            },
        },
{
    proof {
        reveal_strlit(".exit");
    }
    match parse(line) {
        Err(error) => error.to_string(),
        Ok(command) => execute(&command, context),
    }
}

} // verus!
