//! Text forms of results and errors, as the command loop prints them.
use vstd::prelude::*;
use vstd::string::{StrSliceExecFns, StringExecFns};
use crate::executor::{ExecutionResult, ResultModel};
use crate::sql::{strings_view, ColumnType, ParseErrorModel, ParserError};
use crate::storage::{rows_view, row_view, StorageError, StorageErrorModel, Value, ValueModel};

verus! {

pub open spec fn digit_char(d: nat) -> char {
    if d == 0 { '0' } else if d == 1 { '1' } else if d == 2 { '2' } else if d == 3 { '3' } else if d == 4 { '4' }
    else if d == 5 { '5' } else if d == 6 { '6' } else if d == 7 { '7' } else if d == 8 { '8' } else { '9' }
}

/// The decimal digits of `n`.
pub open spec fn nat_text(n: nat) -> Seq<char>
    decreases n,
{
    if n < 10 {
        seq![digit_char(n)]
    } else {
        nat_text(n / 10).push(digit_char(n % 10))
    }
}

/// The decimal form of `n`, with a leading `-` when negative.
pub open spec fn int_text(n: int) -> Seq<char> {
    if n < 0 {
        seq!['-'] + nat_text((-n) as nat)
    } else {
        nat_text(n as nat)
    }
}

fn digit_str(d: u64) -> (r: &'static str)
    requires
        d < 10,
    ensures
        r@ == seq![digit_char(d as nat)],
{
    let digits = "0123456789";
    proof {
        reveal_strlit("0123456789");
    }
    let r = digits.substring_char(d as usize, d as usize + 1);
    assert(r@ =~= seq![digit_char(d as nat)]);
    r
}

/// The decimal form of `n`.
pub fn nat_string(n: u128) -> (r: String)
    ensures
        r@ == nat_text(n as nat),
    decreases n,
{
    if n < 10 {
        String::from_str(digit_str(n as u64))
    } else {
        let head = nat_string(n / 10);
        let r = head.concat(digit_str((n % 10) as u64));
        r
    }
}

/// The decimal form of `n`, with a leading `-` when negative.
pub fn int_string(n: i128) -> (r: String)
    requires
        n > i128::MIN,
    ensures
        r@ == int_text(n as int),
{
    if n < 0 {
        let r = String::from_str("-").concat(nat_string((0 - n) as u128).as_str());
        proof {
            reveal_strlit("-");
        }
        r
    } else {
        nat_string(n as u128)
    }
}

/// `parts` with `sep` between each two.
pub open spec fn join(parts: Seq<Seq<char>>, sep: Seq<char>) -> Seq<char>
    decreases parts.len(),
{
    if parts.len() == 0 {
        Seq::empty()
    } else if parts.len() == 1 {
        parts[0]
    } else {
        join(parts.drop_last(), sep) + sep + parts.last()
    }
}

/// The strings of `parts` with `sep` between each two.
pub fn join_strings(parts: &Vec<String>, sep: &str) -> (r: String)
    ensures
        r@ == join(strings_view(parts@), sep@),
{
    let ghost ps = strings_view(parts@);
    let mut r = String::new();
    let mut k: usize = 0;
    assert(ps.subrange(0, 0) =~= Seq::<Seq<char>>::empty());
    while k < parts.len()
        invariant
            ps == strings_view(parts@),
            k <= parts@.len(),
            r@ == join(ps.subrange(0, k as int), sep@),
        decreases parts@.len() - k,
    {
        assert(ps.subrange(0, k + 1).drop_last() =~= ps.subrange(0, k as int));
        if k > 0 {
            r.append(sep);
        }
        r.append(parts[k].as_str());
        if k == 0 {
            assert(r@ =~= ps.subrange(0, 1)[0]);
        }
        k = k + 1;
    }
    assert(ps.subrange(0, k as int) =~= ps);
    r
}

/// The keyword of a column type.
pub open spec fn column_type_text(t: ColumnType) -> Seq<char> {
    match t {
        ColumnType::Id => "id"@,
        ColumnType::Char255 => "char255"@,
        ColumnType::Int8 => "int8"@,
        ColumnType::Int16 => "int16"@,
        ColumnType::Int32 => "int32"@,
        ColumnType::Int64 => "int64"@,
        ColumnType::Uint8 => "uint8"@,
        ColumnType::Uint16 => "uint16"@,
        ColumnType::Uint32 => "uint32"@,
        ColumnType::Uint64 => "uint64"@,
    }
}

/// The keyword of a column type.
pub fn type_string(t: ColumnType) -> (r: String)
    ensures
        r@ == column_type_text(t),
{
    let s = match t {
        ColumnType::Id => "id",
        ColumnType::Char255 => "char255",
        ColumnType::Int8 => "int8",
        ColumnType::Int16 => "int16",
        ColumnType::Int32 => "int32",
        ColumnType::Int64 => "int64",
        ColumnType::Uint8 => "uint8",
        ColumnType::Uint16 => "uint16",
        ColumnType::Uint32 => "uint32",
        ColumnType::Uint64 => "uint64",
    };
    String::from_str(s)
}

/// A stored value as text.
pub open spec fn value_text(v: ValueModel) -> Seq<char> {
    match v {
        ValueModel::Id(n) => nat_text(n as nat),
        ValueModel::Text(s) => s,
        ValueModel::Signed(n) => int_text(n as int),
        ValueModel::Unsigned(n) => nat_text(n as nat),
    }
}

/// A stored value as text.
pub fn value_string(v: &Value) -> (r: String)
    ensures
        r@ == value_text(v@),
{
    match v {
        Value::Id(n) => nat_string(*n as u128),
        Value::Text(s) => s.clone(),
        Value::Signed(n) => int_string(*n as i128),
        Value::Unsigned(n) => nat_string(*n as u128),
    }
}

/// A row as text: its values separated by ` | `.
pub open spec fn row_text(r: Seq<ValueModel>) -> Seq<char> {
    join(r.map_values(|v: ValueModel| value_text(v)), " | "@)
}

/// A row as text: its values separated by ` | `.
pub fn row_string(row: &Vec<Value>) -> (r: String)
    ensures
        r@ == row_text(row_view(row@)),
{
    let mut parts: Vec<String> = Vec::new();
    let mut k: usize = 0;
    while k < row.len()
        invariant
            k <= row@.len(),
            parts@.len() == k,
            forall|j: int| 0 <= j < k ==> (#[trigger] parts@[j])@ == value_text(row@[j]@),
        decreases row@.len() - k,
    {
        parts.push(value_string(&row[k]));
        k = k + 1;
    }
    assert(strings_view(parts@) =~= row_view(row@).map_values(|v: ValueModel| value_text(v)));
    join_strings(&parts, " | ")
}

/// What a statement that succeeded produced, as text; rows one per line.
pub open spec fn result_text(x: ResultModel) -> Seq<char> {
    match x {
        ResultModel::Created => "created"@,
        ResultModel::Inserted(Some(id)) => "inserted with id "@ + nat_text(id as nat),
        ResultModel::Inserted(None) => "inserted"@,
        ResultModel::Rows(rows) => if rows.len() == 0 {
            "no rows"@
        } else {
            join(rows.map_values(|r: Seq<ValueModel>| row_text(r)), "\n"@)
        },
        ResultModel::Dropped => "dropped"@,
    }
}

/// What a statement that succeeded produced, as text; rows one per line.
pub fn result_string(x: &ExecutionResult) -> (r: String)
    ensures
        r@ == result_text(x@),
{
    match x {
        ExecutionResult::Created => String::from_str("created"),
        ExecutionResult::Inserted { id: Some(id) } => String::from_str("inserted with id ").concat(
            nat_string(*id as u128).as_str(),
        ),
        ExecutionResult::Inserted { id: None } => String::from_str("inserted"),
        ExecutionResult::Rows { rows } => {
            if rows.len() == 0 {
                return String::from_str("no rows");
            }
            let mut lines: Vec<String> = Vec::new();
            let mut k: usize = 0;
            while k < rows.len()
                invariant
                    k <= rows@.len(),
                    lines@.len() == k,
                    forall|j: int| 0 <= j < k ==> (#[trigger] lines@[j])@ == row_text(row_view(rows@[j]@)),
                decreases rows@.len() - k,
            {
                lines.push(row_string(&rows[k]));
                k = k + 1;
            }
            assert(strings_view(lines@) =~= rows_view(rows@).map_values(|r: Seq<ValueModel>| row_text(r)));
            join_strings(&lines, "\n")
        },
        ExecutionResult::Dropped => String::from_str("dropped"),
    }
}

/// A parse error as text.
pub open spec fn parse_error_text(e: ParseErrorModel) -> Seq<char> {
    match e {
        ParseErrorModel::UnsupportedStatement(s) => "SQL statement not yet supported: "@ + s,
        ParseErrorModel::UnknownStatement(s) => "unknown SQL statement: "@ + s,
        ParseErrorModel::MissingValuesClause => "insert statement must contain a 'values' clause"@,
        ParseErrorModel::MissingTableName(s) => "'"@ + s + "' statement must have a table name specified"@,
        ParseErrorModel::UnknownColumnType(s) => "unknown column type: "@ + s,
        ParseErrorModel::MalformedColumnList(s) => "malformed column list: "@ + s,
        ParseErrorModel::MalformedValueList(s) => "malformed value list: "@ + s,
    }
}

impl ParserError {
    /// The error as text.
    pub fn to_string(&self) -> (r: String)
        ensures
            r@ == parse_error_text(self@),
    {
        match self {
            ParserError::UnsupportedStatementError { statement } => String::from_str(
                "SQL statement not yet supported: ",
            ).concat(statement.as_str()),
            ParserError::UnknownStatementError { statement } => String::from_str("unknown SQL statement: ").concat(
                statement.as_str(),
            ),
            ParserError::MissingValuesClauseError => String::from_str("insert statement must contain a 'values' clause"),
            ParserError::MissingTableNameError { statement } => String::from_str("'").concat(statement.as_str()).concat(
                "' statement must have a table name specified",
            ),
            ParserError::UnknownColumnTypeError { token } => String::from_str("unknown column type: ").concat(
                token.as_str(),
            ),
            ParserError::MalformedColumnListError { text } => String::from_str("malformed column list: ").concat(
                text.as_str(),
            ),
            ParserError::MalformedValueListError { text } => String::from_str("malformed value list: ").concat(
                text.as_str(),
            ),
        }
    }
}

/// A storage error as text.
pub open spec fn storage_error_text(e: StorageErrorModel) -> Seq<char> {
    match e {
        StorageErrorModel::TableAlreadyExists(n) => "table already exists: "@ + n,
        StorageErrorModel::DuplicateColumnName(n) => "duplicate column name: "@ + n,
        StorageErrorModel::EmptyColumnList(n) => "no columns given for table "@ + n,
        StorageErrorModel::UnknownTable(n) => "unknown table: "@ + n,
        StorageErrorModel::ColumnCountMismatch(expected, got) => "expected "@ + nat_text(expected) + " values, got "@
            + nat_text(got),
        StorageErrorModel::TypeMismatch(c, t, got) => "value "@ + got + " does not fit column "@ + c + " of type "@
            + column_type_text(t),
        StorageErrorModel::ValueTooLong(c, max) => "value for column "@ + c + " is longer than "@ + nat_text(max)
            + " bytes"@,
        StorageErrorModel::UnknownColumn(n) => "unknown column: "@ + n,
        StorageErrorModel::TableFull(n) => "table is full: "@ + n,
    }
}

impl StorageError {
    /// The error as text.
    pub fn to_string(&self) -> (r: String)
        ensures
            r@ == storage_error_text(self@),
    {
        match self {
            StorageError::TableAlreadyExists { name } => String::from_str("table already exists: ").concat(name.as_str()),
            StorageError::DuplicateColumnName { name } => String::from_str("duplicate column name: ").concat(
                name.as_str(),
            ),
            StorageError::EmptyColumnList { table } => String::from_str("no columns given for table ").concat(
                table.as_str(),
            ),
            StorageError::UnknownTable { name } => String::from_str("unknown table: ").concat(name.as_str()),
            StorageError::ColumnCountMismatch { expected, got } => String::from_str("expected ").concat(
                nat_string(*expected as u128).as_str(),
            ).concat(" values, got ").concat(nat_string(*got as u128).as_str()),
            StorageError::TypeMismatch { column, expected, got } => String::from_str("value ").concat(got.as_str()).concat(
                " does not fit column ",
            ).concat(column.as_str()).concat(" of type ").concat(type_string(*expected).as_str()),
            StorageError::ValueTooLong { column, max } => String::from_str("value for column ").concat(
                column.as_str(),
            ).concat(" is longer than ").concat(nat_string(*max as u128).as_str()).concat(" bytes"),
            StorageError::UnknownColumn { name } => String::from_str("unknown column: ").concat(name.as_str()),
            StorageError::TableFull { name } => String::from_str("table is full: ").concat(name.as_str()),
        }
    }
}

/// What a batch produced, as text: one part per statement that succeeded, then
/// the error that stopped it, each on its own line.
pub open spec fn outcome_text(results: Seq<ResultModel>, error: Option<StorageErrorModel>) -> Seq<char> {
    let parts = results.map_values(|x: ResultModel| result_text(x));
    join(
        match error {
            Some(e) => parts.push("error: "@ + storage_error_text(e)),
            None => parts,
        },
        "\n"@,
    )
}

} // verus!
