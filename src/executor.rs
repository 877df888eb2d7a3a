//! Executor: runs parsed statements against the database, one storage
//! operation per statement.
use vstd::prelude::*;
use crate::sql::{Sql, SqlStatement, StatementModel};
use crate::storage::{
    create_spec, db_wf, drop_spec, insert_spec, rows_view, select_spec, Database, StorageError,
    StorageErrorModel, TableModel, Value, ValueModel,
};

verus! {

/// What a statement that succeeded produced.
#[derive(Debug, PartialEq, Eq)]
pub enum ExecutionResult {
    Created,
    Inserted { id: Option<u64> },
    Rows { rows: Vec<Vec<Value>> },
    Dropped,
}

/// An execution result as a value.
pub enum ResultModel {
    Created,
    Inserted(Option<u64>),
    Rows(Seq<Seq<ValueModel>>),
    Dropped,
}

impl View for ExecutionResult {
    type V = ResultModel;

    open spec fn view(&self) -> ResultModel {
        match self {
            ExecutionResult::Created => ResultModel::Created,
            ExecutionResult::Inserted { id } => ResultModel::Inserted(*id),
            ExecutionResult::Rows { rows } => ResultModel::Rows(rows_view(rows@)),
            ExecutionResult::Dropped => ResultModel::Dropped,
        }
    }
}

/// Why a statement could not be executed.
#[derive(Debug, PartialEq, Eq)]
pub enum ExecutionError {
    Storage(StorageError),
}

impl View for ExecutionError {
    type V = StorageErrorModel;

    open spec fn view(&self) -> StorageErrorModel {
        match self {
            ExecutionError::Storage(e) => e@,
        }
    }
}

/// One statement: the new database and the outcome.
pub open spec fn execute_spec(db: Seq<TableModel>, s: StatementModel) -> (Seq<TableModel>, Result<ResultModel, StorageErrorModel>) {
    match s {
        StatementModel::CreateTable { name, columns } => {
            let (d, r) = create_spec(db, name, columns);
            (d, match r {
                Ok(_) => Ok(ResultModel::Created),
                Err(e) => Err(e),
            })
        },
        StatementModel::Insert { table, values } => {
            let (d, r) = insert_spec(db, table, values);
            (d, match r {
                Ok(id) => Ok(ResultModel::Inserted(id)),
                Err(e) => Err(e),
            })
        },
        StatementModel::Select { table, columns } => (db, match select_spec(db, table, columns) {
            Ok(rows) => Ok(ResultModel::Rows(rows)),
            Err(e) => Err(e),
        }),
        StatementModel::Drop { table } => {
            let (d, r) = drop_spec(db, table);
            (d, match r {
                Ok(_) => Ok(ResultModel::Dropped),
                Err(e) => Err(e),
            })
        },
    }
}

/// Statements in order until one fails: the new database, the results of
/// those that succeeded, and the error that stopped the batch.
pub open spec fn run_spec(db: Seq<TableModel>, stmts: Seq<StatementModel>) -> (
    Seq<TableModel>,
    Seq<ResultModel>,
    Option<StorageErrorModel>,
)
    decreases stmts.len(),
{
    if stmts.len() == 0 {
        (db, Seq::empty(), None)
    } else {
        let (d, rs, err) = run_spec(db, stmts.drop_last());
        if err is Some {
            (d, rs, err)
        } else {
            match execute_spec(d, stmts.last()) {
                (d2, Ok(x)) => (d2, rs.push(x), None),
                (d2, Err(e)) => (d2, rs, Some(e)),
            }
        }
    }
}

/// Runs one statement against the database.
pub fn execute(db: &mut Database, statement: &SqlStatement) -> (r: Result<ExecutionResult, ExecutionError>)
    requires
        db_wf(old(db)@),
    ensures
        db_wf(final(db)@),
        (final(db)@, match r {
            Ok(x) => Ok::<ResultModel, StorageErrorModel>(x@),
            Err(e) => Err(e@),
        }) == execute_spec(old(db)@, statement@),
{
    match statement {
        SqlStatement::CreateTable { name, columns } => match db.create_table(name, columns) {
            Ok(()) => Ok(ExecutionResult::Created),
            Err(e) => Err(ExecutionError::Storage(e)),
        },
        SqlStatement::Insert { table, values } => match db.insert(table, values) {
            Ok(id) => Ok(ExecutionResult::Inserted { id }),
            Err(e) => Err(ExecutionError::Storage(e)),
        },
        SqlStatement::Select { table, columns } => match db.select(table, columns) {
            Ok(rows) => Ok(ExecutionResult::Rows { rows }),
            Err(e) => Err(ExecutionError::Storage(e)),
        },
        SqlStatement::Drop { table } => match db.drop_table(table) {
            Ok(()) => Ok(ExecutionResult::Dropped),
            Err(e) => Err(ExecutionError::Storage(e)),
        },
    }
}

/// What a batch produced: the results of the statements that ran, and the
/// error of the statement that stopped it, if one failed.
#[derive(Debug, PartialEq, Eq)]
pub struct BatchOutcome {
    pub results: Vec<ExecutionResult>,
    pub error: Option<ExecutionError>,
}

pub open spec fn results_view(v: Seq<ExecutionResult>) -> Seq<ResultModel> {
    v.map_values(|x: ExecutionResult| x@)
}

proof fn lemma_run_prefix_err(db: Seq<TableModel>, stmts: Seq<StatementModel>, k: int)
    requires
        0 <= k <= stmts.len(),
        run_spec(db, stmts.subrange(0, k)).2 is Some,
    ensures
        run_spec(db, stmts) == run_spec(db, stmts.subrange(0, k)),
    decreases stmts.len(),
{
    if stmts.len() == k {
        assert(stmts.subrange(0, k) =~= stmts);
    } else {
        assert(stmts.drop_last().subrange(0, k) =~= stmts.subrange(0, k));
        lemma_run_prefix_err(db, stmts.drop_last(), k);
    }
}

/// Runs the statements of a batch in order, stopping at the first that fails;
/// the effects of those before it stay.
pub fn execute_batch(db: &mut Database, sql: &Sql) -> (r: BatchOutcome)
    requires
        db_wf(old(db)@),
    ensures
        db_wf(final(db)@),
        run_spec(old(db)@, sql@) == (final(db)@, results_view(r.results@), match r.error {
            Some(e) => Some(e@),
            None => None::<StorageErrorModel>,
        }),
{
    let ghost db0 = db@;
    let ghost stmts = sql@;
    let mut results: Vec<ExecutionResult> = Vec::new();
    let mut k: usize = 0;
    assert(stmts.subrange(0, 0) =~= Seq::<StatementModel>::empty());
    assert(results_view(results@) =~= Seq::<ResultModel>::empty());
    while k < sql.statements.len()
        invariant
            stmts == sql@,
            db0 == old(db)@,
            stmts.len() == sql.statements@.len(),
            k <= stmts.len(),
            db_wf(db@),
            run_spec(db0, stmts.subrange(0, k as int)) == (db@, results_view(results@), None::<StorageErrorModel>),
        decreases stmts.len() - k,
    {
        assert(stmts.subrange(0, k + 1).drop_last() =~= stmts.subrange(0, k as int));
        assert(stmts[k as int] == sql.statements@[k as int]@);
        let ghost prev = results@;
        let ghost before = db@;
        match execute(db, &sql.statements[k]) {
            Ok(x) => {
                results.push(x);
                assert(results_view(results@) =~= results_view(prev).push(x@));
            },
            Err(e) => {
                assert(run_spec(db0, stmts.subrange(0, k + 1)) == (db@, results_view(results@), Some(e@)));
                proof {
                    lemma_run_prefix_err(db0, stmts, k + 1);
                }
                return BatchOutcome { results, error: Some(e) };
            },
        }
        k = k + 1;
    }
    assert(stmts.subrange(0, k as int) =~= stmts);
    BatchOutcome { results, error: None }
}

} // verus!
