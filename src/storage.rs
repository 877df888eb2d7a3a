//! In-memory table storage: tables with typed columns and rows kept in
//! insertion order, with create / insert / select / drop operations that
//! leave the database unchanged when they fail.
use vstd::prelude::*;
use crate::sql::{columns_view, strings_view, ColumnDef, ColumnType};
use crate::text::{chars_of, lower_of, lowercase};

verus! {

/// The most bytes a `Char255` value may hold.
pub const CHAR255_MAX: usize = 255;

/// A stored scalar.
#[derive(Debug, PartialEq, Eq)]
pub enum Value {
    Id(u64),
    Text(String),
    Signed(i64),
    Unsigned(u64),
}

/// A stored scalar as a value.
pub enum ValueModel {
    Id(u64),
    Text(Seq<char>),
    Signed(i64),
    Unsigned(u64),
}

impl View for Value {
    type V = ValueModel;

    open spec fn view(&self) -> ValueModel {
        match self {
            Value::Id(n) => ValueModel::Id(*n),
            Value::Text(s) => ValueModel::Text(s@),
            Value::Signed(n) => ValueModel::Signed(*n),
            Value::Unsigned(n) => ValueModel::Unsigned(*n),
        }
    }
}

pub open spec fn row_view(r: Seq<Value>) -> Seq<ValueModel> {
    r.map_values(|v: Value| v@)
}

pub open spec fn rows_view(rs: Seq<Vec<Value>>) -> Seq<Seq<ValueModel>> {
    rs.map_values(|r: Vec<Value>| row_view(r@))
}

/// A copy of a stored scalar.
pub fn copy_value(v: &Value) -> (r: Value)
    ensures
        r@ == v@,
{
    match v {
        Value::Id(n) => Value::Id(*n),
        Value::Text(s) => Value::Text(s.clone()),
        Value::Signed(n) => Value::Signed(*n),
        Value::Unsigned(n) => Value::Unsigned(*n),
    }
}

/// Why a storage operation failed.
#[derive(Debug, PartialEq, Eq)]
pub enum StorageError {
    TableAlreadyExists { name: String },
    DuplicateColumnName { name: String },
    EmptyColumnList { table: String },
    UnknownTable { name: String },
    ColumnCountMismatch { expected: usize, got: usize },
    TypeMismatch { column: String, expected: ColumnType, got: String },
    ValueTooLong { column: String, max: usize },
    UnknownColumn { name: String },
    TableFull { name: String },
}

/// A storage error as a value.
pub enum StorageErrorModel {
    TableAlreadyExists(Seq<char>),
    DuplicateColumnName(Seq<char>),
    EmptyColumnList(Seq<char>),
    UnknownTable(Seq<char>),
    ColumnCountMismatch(nat, nat),
    TypeMismatch(Seq<char>, ColumnType, Seq<char>),
    ValueTooLong(Seq<char>, nat),
    UnknownColumn(Seq<char>),
    TableFull(Seq<char>),
}

impl View for StorageError {
    type V = StorageErrorModel;

    open spec fn view(&self) -> StorageErrorModel {
        match self {
            StorageError::TableAlreadyExists { name } => StorageErrorModel::TableAlreadyExists(name@),
            StorageError::DuplicateColumnName { name } => StorageErrorModel::DuplicateColumnName(name@),
            StorageError::EmptyColumnList { table } => StorageErrorModel::EmptyColumnList(table@),
            StorageError::UnknownTable { name } => StorageErrorModel::UnknownTable(name@),
            StorageError::ColumnCountMismatch { expected, got } => StorageErrorModel::ColumnCountMismatch(
                *expected as nat,
                *got as nat,
            ),
            StorageError::TypeMismatch { column, expected, got } => StorageErrorModel::TypeMismatch(
                column@,
                *expected,
                got@,
            ),
            StorageError::ValueTooLong { column, max } => StorageErrorModel::ValueTooLong(column@, *max as nat),
            StorageError::UnknownColumn { name } => StorageErrorModel::UnknownColumn(name@),
            StorageError::TableFull { name } => StorageErrorModel::TableFull(name@),
        }
    }
}

/// A table: its name, its columns in declared order, and its rows in insertion order.
pub struct Table {
    name: String,
    columns: Vec<ColumnDef>,
    rows: Vec<Vec<Value>>,
}

/// A table as a value.
pub struct TableModel {
    pub name: Seq<char>,
    pub columns: Seq<(Seq<char>, ColumnType)>,
    pub rows: Seq<Seq<ValueModel>>,
}

impl View for Table {
    type V = TableModel;

    closed spec fn view(&self) -> TableModel {
        TableModel { name: self.name@, columns: columns_view(self.columns@), rows: rows_view(self.rows@) }
    }
}

/// The set of tables of one session. Table names, and column names within a
/// table, are unique without regard to case, and are looked up the same way.
pub struct Database {
    tables: Vec<Table>,
}

pub open spec fn tables_view(ts: Seq<Table>) -> Seq<TableModel> {
    ts.map_values(|t: Table| t@)
}

impl View for Database {
    type V = Seq<TableModel>;

    closed spec fn view(&self) -> Seq<TableModel> {
        tables_view(self.tables@)
    }
}

/// The most rows a table holds, so that every row's id fits in a `u64`.
pub open spec fn max_rows() -> nat {
    (u64::MAX - 1) as nat
}

/// A table whose rows each have one value per column.
pub open spec fn table_wf(t: TableModel) -> bool {
    &&& t.rows.len() <= max_rows()
    &&& forall|r: int| 0 <= r < t.rows.len() ==> (#[trigger] t.rows[r]).len() == t.columns.len()
}

/// Names are compared without regard to case: two names are the same when
/// their lower-case forms are equal.
pub open spec fn same_name(a: Seq<char>, b: Seq<char>) -> bool {
    lower_of(a) == lower_of(b)
}

/// Whether `a` and `b` are the same name.
fn same_name_exec(a: &String, b: &String) -> (r: bool)
    ensures
        r == same_name(a@, b@),
{
    lowercase(a.as_str()) == lowercase(b.as_str())
}

/// Tables with distinct names, each well formed.
pub open spec fn db_wf(db: Seq<TableModel>) -> bool {
    &&& forall|i: int, j: int| 0 <= i < db.len() && 0 <= j < db.len() && same_name(db[i].name, db[j].name) ==> i == j
    &&& forall|i: int| 0 <= i < db.len() ==> table_wf(#[trigger] db[i])
}

/// Whether a table named `name` exists.
pub open spec fn has_table(db: Seq<TableModel>, name: Seq<char>) -> bool {
    exists|i: int| 0 <= i < db.len() && same_name((#[trigger] db[i]).name, name)
}

/// The position of the table named `name`.
pub open spec fn table_index(db: Seq<TableModel>, name: Seq<char>) -> int {
    choose|i: int| 0 <= i < db.len() && same_name((#[trigger] db[i]).name, name)
}

/// The name of the first column whose name an earlier column already has.
pub open spec fn first_duplicate(cols: Seq<(Seq<char>, ColumnType)>) -> Option<Seq<char>>
    decreases cols.len(),
{
    if cols.len() == 0 {
        None
    } else {
        match first_duplicate(cols.drop_last()) {
            Some(n) => Some(n),
            None => if exists|i: int| 0 <= i < cols.len() - 1 && same_name((#[trigger] cols[i]).0, cols.last().0) {
                Some(cols.last().0)
            } else {
                None
            },
        }
    }
}

/// `create_table`: the new database and the outcome.
pub open spec fn create_spec(db: Seq<TableModel>, name: Seq<char>, cols: Seq<(Seq<char>, ColumnType)>) -> (
    Seq<TableModel>,
    Result<(), StorageErrorModel>,
) {
    if has_table(db, name) {
        (db, Err(StorageErrorModel::TableAlreadyExists(name)))
    } else if cols.len() == 0 {
        (db, Err(StorageErrorModel::EmptyColumnList(name)))
    } else if let Some(d) = first_duplicate(cols) {
        (db, Err(StorageErrorModel::DuplicateColumnName(d)))
    } else {
        (db.push(TableModel { name, columns: cols, rows: Seq::empty() }), Ok(()))
    }
}

/// `drop_table`: the new database and the outcome.
pub open spec fn drop_spec(db: Seq<TableModel>, name: Seq<char>) -> (Seq<TableModel>, Result<(), StorageErrorModel>) {
    if has_table(db, name) {
        (db.remove(table_index(db, name)), Ok(()))
    } else {
        (db, Err(StorageErrorModel::UnknownTable(name)))
    }
}

pub open spec fn unit_view(r: Result<(), StorageError>) -> Result<(), StorageErrorModel> {
    match r {
        Ok(()) => Ok(()),
        Err(e) => Err(e@),
    }
}

pub open spec fn is_digit(c: char) -> bool {
    '0' <= c <= '9'
}

/// The value of a run of decimal digits.
pub open spec fn digits_value(s: Seq<char>) -> nat
    decreases s.len(),
{
    if s.len() == 0 {
        0
    } else {
        digits_value(s.drop_last()) * 10 + (s.last() as nat - '0' as nat) as nat
    }
}

pub open spec fn all_digits(s: Seq<char>) -> bool {
    s.len() > 0 && forall|i: int| 0 <= i < s.len() ==> is_digit(#[trigger] s[i])
}

/// The integer a base-10 literal denotes; a leading `-` only where `signed`.
pub open spec fn literal_int(s: Seq<char>, signed: bool) -> Option<int> {
    if signed && s.len() > 0 && s[0] == '-' && all_digits(s.drop_first()) {
        Some(-(digits_value(s.drop_first()) as int))
    } else if all_digits(s) {
        Some(digits_value(s) as int)
    } else {
        None
    }
}

pub open spec fn is_signed(t: ColumnType) -> bool {
    t == ColumnType::Int8 || t == ColumnType::Int16 || t == ColumnType::Int32 || t == ColumnType::Int64
}

/// The least and the greatest value of an integer column type.
pub open spec fn int_range(t: ColumnType) -> (int, int) {
    match t {
        ColumnType::Int8 => (i8::MIN as int, i8::MAX as int),
        ColumnType::Int16 => (i16::MIN as int, i16::MAX as int),
        ColumnType::Int32 => (i32::MIN as int, i32::MAX as int),
        ColumnType::Int64 => (i64::MIN as int, i64::MAX as int),
        ColumnType::Uint8 => (0, u8::MAX as int),
        ColumnType::Uint16 => (0, u16::MAX as int),
        ColumnType::Uint32 => (0, u32::MAX as int),
        _ => (0, u64::MAX as int),
    }
}

/// The number of bytes of the UTF-8 encoding of `c`.
pub open spec fn utf8_width(c: char) -> nat {
    if (c as u32) < 0x80 {
        1
    } else if (c as u32) < 0x800 {
        2
    } else if (c as u32) < 0x10000 {
        3
    } else {
        4
    }
}

/// The number of bytes of the UTF-8 encoding of `s`.
pub open spec fn utf8_len(s: Seq<char>) -> nat
    decreases s.len(),
{
    if s.len() == 0 {
        0
    } else {
        utf8_len(s.drop_last()) + utf8_width(s.last())
    }
}

/// The value a literal gives a column that is not an `Id` column.
pub open spec fn coerce(column: Seq<char>, t: ColumnType, lit: Seq<char>) -> Result<ValueModel, StorageErrorModel> {
    if t == ColumnType::Char255 {
        if utf8_len(lit) > CHAR255_MAX {
            Err(StorageErrorModel::ValueTooLong(column, CHAR255_MAX as nat))
        } else {
            Ok(ValueModel::Text(lit))
        }
    } else {
        match literal_int(lit, is_signed(t)) {
            Some(v) if int_range(t).0 <= v <= int_range(t).1 => if is_signed(t) {
                Ok(ValueModel::Signed(v as i64))
            } else {
                Ok(ValueModel::Unsigned(v as u64))
            },
            _ => Err(StorageErrorModel::TypeMismatch(column, t, lit)),
        }
    }
}

/// The number of columns before position `j` that are not `Id` columns.
pub open spec fn data_index(cols: Seq<(Seq<char>, ColumnType)>, j: int) -> nat
    decreases j,
{
    if j <= 0 {
        0
    } else {
        data_index(cols, j - 1) + if cols[j - 1].1 == ColumnType::Id {
            0nat
        } else {
            1nat
        }
    }
}

/// The number of values an insert supplies: one per column that is not an `Id` column.
pub open spec fn data_count(cols: Seq<(Seq<char>, ColumnType)>) -> nat {
    data_index(cols, cols.len() as int)
}

/// The value of column `j` in a row inserted with `vals` and id `id`.
pub open spec fn cell(cols: Seq<(Seq<char>, ColumnType)>, vals: Seq<Seq<char>>, id: u64, j: int) -> Result<
    ValueModel,
    StorageErrorModel,
> {
    if cols[j].1 == ColumnType::Id {
        Ok(ValueModel::Id(id))
    } else {
        coerce(cols[j].0, cols[j].1, vals[data_index(cols, j) as int])
    }
}

/// The error of the first column at or after `j` whose value cannot be made.
pub open spec fn first_cell_error(cols: Seq<(Seq<char>, ColumnType)>, vals: Seq<Seq<char>>, id: u64, j: int) -> Option<
    StorageErrorModel,
>
    decreases cols.len() - j,
{
    if j < 0 || j >= cols.len() {
        None
    } else {
        match cell(cols, vals, id, j) {
            Err(e) => Some(e),
            Ok(_) => first_cell_error(cols, vals, id, j + 1),
        }
    }
}

/// The row inserted with `vals` and id `id`, when every column's value can be made.
pub open spec fn bound_row(cols: Seq<(Seq<char>, ColumnType)>, vals: Seq<Seq<char>>, id: u64) -> Seq<ValueModel> {
    Seq::new(cols.len(), |j: int| cell(cols, vals, id, j)->Ok_0)
}

pub open spec fn has_id_column(cols: Seq<(Seq<char>, ColumnType)>) -> bool {
    exists|j: int| 0 <= j < cols.len() && (#[trigger] cols[j]).1 == ColumnType::Id
}

/// The id the next row of a table gets: one more than the rows it holds.
pub open spec fn next_id(t: TableModel) -> u64 {
    (t.rows.len() + 1) as u64
}

/// `insert`: the new database and the outcome, the new row's id where the table has an `Id` column.
pub open spec fn insert_spec(db: Seq<TableModel>, name: Seq<char>, vals: Seq<Seq<char>>) -> (
    Seq<TableModel>,
    Result<Option<u64>, StorageErrorModel>,
) {
    if !has_table(db, name) {
        (db, Err(StorageErrorModel::UnknownTable(name)))
    } else {
        let i = table_index(db, name);
        let t = db[i];
        if vals.len() != data_count(t.columns) {
            (db, Err(StorageErrorModel::ColumnCountMismatch(data_count(t.columns), vals.len())))
        } else if t.rows.len() >= max_rows() {
            (db, Err(StorageErrorModel::TableFull(name)))
        } else if let Some(e) = first_cell_error(t.columns, vals, next_id(t), 0) {
            (db, Err(e))
        } else {
            let row = bound_row(t.columns, vals, next_id(t));
            (
                db.update(i, TableModel { rows: t.rows.push(row), ..t }),
                Ok(if has_id_column(t.columns) { Some(next_id(t)) } else { None }),
            )
        }
    }
}

/// The position of the first column named `name`.
pub open spec fn column_index(cols: Seq<(Seq<char>, ColumnType)>, name: Seq<char>) -> Option<int>
    decreases cols.len(),
{
    if cols.len() == 0 {
        None
    } else {
        match column_index(cols.drop_last(), name) {
            Some(j) => Some(j),
            None => if same_name(cols.last().0, name) {
                Some(cols.len() - 1)
            } else {
                None
            },
        }
    }
}

/// The first requested name that is not a column.
pub open spec fn first_unknown(cols: Seq<(Seq<char>, ColumnType)>, names: Seq<Seq<char>>) -> Option<Seq<char>>
    decreases names.len(),
{
    if names.len() == 0 {
        None
    } else {
        match first_unknown(cols, names.drop_last()) {
            Some(n) => Some(n),
            None => if column_index(cols, names.last()) is None {
                Some(names.last())
            } else {
                None
            },
        }
    }
}

/// The positions a select reads, in order: every column when no names are given.
pub open spec fn projection(cols: Seq<(Seq<char>, ColumnType)>, names: Seq<Seq<char>>) -> Seq<int> {
    if names.len() == 0 {
        Seq::new(cols.len(), |j: int| j)
    } else {
        names.map_values(|n: Seq<char>| column_index(cols, n)->Some_0)
    }
}

/// `select`: the projected rows in insertion order.
pub open spec fn select_spec(db: Seq<TableModel>, name: Seq<char>, names: Seq<Seq<char>>) -> Result<
    Seq<Seq<ValueModel>>,
    StorageErrorModel,
> {
    if !has_table(db, name) {
        Err(StorageErrorModel::UnknownTable(name))
    } else {
        let t = db[table_index(db, name)];
        if let Some(n) = first_unknown(t.columns, names) {
            Err(StorageErrorModel::UnknownColumn(n))
        } else {
            let p = projection(t.columns, names);
            Ok(t.rows.map_values(|r: Seq<ValueModel>| p.map_values(|j: int| r[j])))
        }
    }
}

proof fn lemma_first_duplicate_prefix(cols: Seq<(Seq<char>, ColumnType)>, k: int)
    requires
        0 <= k <= cols.len(),
        first_duplicate(cols.subrange(0, k)) is Some,
    ensures
        first_duplicate(cols) == first_duplicate(cols.subrange(0, k)),
    decreases cols.len(),
{
    if cols.len() == k {
        assert(cols.subrange(0, k) =~= cols);
    } else {
        assert(cols.drop_last().subrange(0, k) =~= cols.subrange(0, k));
        lemma_first_duplicate_prefix(cols.drop_last(), k);
    }
}

/// The position of the first column whose name an earlier column already has.
fn find_duplicate(columns: &Vec<ColumnDef>) -> (r: Option<usize>)
    ensures
        r is None ==> first_duplicate(columns_view(columns@)) is None,
        r matches Some(j) ==> j < columns@.len() && first_duplicate(columns_view(columns@)) == Some(columns@[j as int].name@),
{
    let ghost cols = columns_view(columns@);
    let mut j: usize = 0;
    assert(cols.subrange(0, 0) =~= Seq::<(Seq<char>, ColumnType)>::empty());
    while j < columns.len()
        invariant
            cols == columns_view(columns@),
            j <= columns@.len(),
            first_duplicate(cols.subrange(0, j as int)) is None,
        decreases columns@.len() - j,
    {
        let ghost pre = cols.subrange(0, j as int + 1);
        assert(pre.drop_last() =~= cols.subrange(0, j as int));
        let mut i: usize = 0;
        while i < j
            invariant
                cols == columns_view(columns@),
                i <= j < columns@.len(),
                pre == cols.subrange(0, j as int + 1),
                first_duplicate(pre.drop_last()) is None,
                forall|k: int| 0 <= k < i ==> !same_name((#[trigger] pre[k]).0, pre.last().0),
            decreases j - i,
        {
            if same_name_exec(&columns[i].name, &columns[j].name) {
                assert(same_name(pre[i as int].0, pre.last().0));
                assert(pre.last() == columns@[j as int]@);
                assert(first_duplicate(pre) == Some(pre.last().0));
                proof {
                    lemma_first_duplicate_prefix(cols, j as int + 1);
                }
                return Some(j);
            }
            i = i + 1;
        }
        j = j + 1;
    }
    assert(cols.subrange(0, j as int) =~= cols);
    None
}

fn copy_columns(columns: &Vec<ColumnDef>) -> (r: Vec<ColumnDef>)
    ensures
        columns_view(r@) == columns_view(columns@),
{
    let mut r: Vec<ColumnDef> = Vec::new();
    let mut k: usize = 0;
    while k < columns.len()
        invariant
            k <= columns@.len(),
            r@.len() == k,
            forall|j: int| 0 <= j < k ==> (#[trigger] r@[j])@ == columns@[j]@,
        decreases columns@.len() - k,
    {
        r.push(ColumnDef { name: columns[k].name.clone(), column_type: columns[k].column_type });
        k = k + 1;
    }
    assert(columns_view(r@) =~= columns_view(columns@));
    r
}

proof fn lemma_utf8_len_prefix(s: Seq<char>, i: int)
    requires
        0 <= i <= s.len(),
    ensures
        utf8_len(s.subrange(0, i)) <= utf8_len(s),
    decreases s.len(),
{
    if i < s.len() {
        assert(s.drop_last().subrange(0, i) =~= s.subrange(0, i));
        lemma_utf8_len_prefix(s.drop_last(), i);
    } else {
        assert(s.subrange(0, i) =~= s);
    }
}

/// Whether the UTF-8 encoding of `cs` is longer than `CHAR255_MAX` bytes.
fn longer_than_char255(cs: &Vec<char>) -> (r: bool)
    ensures
        r == (utf8_len(cs@) > CHAR255_MAX),
{
    let mut n: usize = 0;
    let mut i: usize = 0;
    assert(cs@.subrange(0, 0) =~= Seq::<char>::empty());
    while i < cs.len()
        invariant
            i <= cs@.len(),
            n == utf8_len(cs@.subrange(0, i as int)),
            n <= CHAR255_MAX,
        decreases cs@.len() - i,
    {
        let c = cs[i];
        let w: usize = if (c as u32) < 0x80 {
            1
        } else if (c as u32) < 0x800 {
            2
        } else if (c as u32) < 0x10000 {
            3
        } else {
            4
        };
        assert(cs@.subrange(0, i + 1).drop_last() =~= cs@.subrange(0, i as int));
        n = n + w;
        i = i + 1;
        if n > CHAR255_MAX {
            proof {
                lemma_utf8_len_prefix(cs@, i as int);
            }
            return true;
        }
    }
    assert(cs@.subrange(0, i as int) =~= cs@);
    false
}

proof fn lemma_digits_prefix(s: Seq<char>, i: int)
    requires
        0 <= i <= s.len(),
    ensures
        digits_value(s.subrange(0, i)) <= digits_value(s),
    decreases s.len(),
{
    if i < s.len() {
        assert(s.drop_last().subrange(0, i) =~= s.subrange(0, i));
        lemma_digits_prefix(s.drop_last(), i);
    } else {
        assert(s.subrange(0, i) =~= s);
    }
}

/// The value of the digits `cs[start..]`, where it is at most 2^64.
fn digits_in(cs: &Vec<char>, start: usize) -> (r: Option<u128>)
    requires
        start <= cs@.len(),
    ensures
        r matches Some(v) ==> all_digits(cs@.subrange(start as int, cs@.len() as int))
            && v == digits_value(cs@.subrange(start as int, cs@.len() as int)) && v <= 0x1_0000_0000_0000_0000,
        r is None ==> !all_digits(cs@.subrange(start as int, cs@.len() as int))
            || digits_value(cs@.subrange(start as int, cs@.len() as int)) > 0x1_0000_0000_0000_0000,
{
    let ghost s = cs@.subrange(start as int, cs@.len() as int);
    if start == cs.len() {
        return None;
    }
    let mut v: u128 = 0;
    let mut i: usize = start;
    assert(s.subrange(0, 0) =~= Seq::<char>::empty());
    while i < cs.len()
        invariant
            start <= i <= cs@.len(),
            s == cs@.subrange(start as int, cs@.len() as int),
            v == digits_value(s.subrange(0, i - start)),
            v <= 0x1_0000_0000_0000_0000,
            forall|k: int| 0 <= k < i - start ==> is_digit(#[trigger] s[k]),
        decreases cs@.len() - i,
    {
        let c = cs[i];
        if !('0' <= c && c <= '9') {
            assert(!is_digit(s[i - start]));
            return None;
        }
        let d = (c as u32 - '0' as u32) as u128;
        assert(s.subrange(0, i + 1 - start).drop_last() =~= s.subrange(0, i - start));
        assert(v * 10 + d <= 0x1_0000_0000_0000_0000 * 10 + 9) by (nonlinear_arith)
            requires
                v <= 0x1_0000_0000_0000_0000,
                d <= 9,
        ;
        v = v * 10 + d;
        i = i + 1;
        if v > 0x1_0000_0000_0000_0000 {
            proof {
                lemma_digits_prefix(s, i - start);
            }
            return None;
        }
    }
    assert(s.subrange(0, i - start) =~= s);
    Some(v)
}

/// The integer a literal denotes, where it is an integer literal of at most
/// 2^64 in magnitude; a leading `-` only where `signed`.
fn literal_in(cs: &Vec<char>, signed: bool) -> (r: Option<i128>)
    ensures
        r matches Some(v) ==> literal_int(cs@, signed) == Some(v as int),
        r is None ==> match literal_int(cs@, signed) {
            None => true,
            Some(v) => v > 0x1_0000_0000_0000_0000 || v < -0x1_0000_0000_0000_0000,
        },
{
    assert(cs@.subrange(0, cs@.len() as int) =~= cs@);
    if signed && cs.len() > 0 && cs[0] == '-' {
        assert(cs@.subrange(1, cs@.len() as int) =~= cs@.drop_first());
        assert(!is_digit(cs@[0]));
        match digits_in(cs, 1) {
            Some(m) => Some(0i128 - m as i128),
            None => None,
        }
    } else {
        match digits_in(cs, 0) {
            Some(m) => Some(m as i128),
            None => None,
        }
    }
}

/// The stored value a literal gives a column that is not an `Id` column.
fn coerce_in(column: &String, t: ColumnType, lit: &String) -> (r: Result<Value, StorageError>)
    requires
        t != ColumnType::Id,
    ensures
        match r {
            Ok(v) => coerce(column@, t, lit@) == Ok::<ValueModel, StorageErrorModel>(v@),
            Err(e) => coerce(column@, t, lit@) == Err::<ValueModel, StorageErrorModel>(e@),
        },
{
    let cs = chars_of(lit.as_str());
    if t == ColumnType::Char255 {
        if longer_than_char255(&cs) {
            return Err(StorageError::ValueTooLong { column: column.clone(), max: CHAR255_MAX });
        }
        return Ok(Value::Text(lit.clone()));
    }
    let signed = t == ColumnType::Int8 || t == ColumnType::Int16 || t == ColumnType::Int32 || t == ColumnType::Int64;
    let (lo, hi): (i128, i128) = match t {
        ColumnType::Int8 => (i8::MIN as i128, i8::MAX as i128),
        ColumnType::Int16 => (i16::MIN as i128, i16::MAX as i128),
        ColumnType::Int32 => (i32::MIN as i128, i32::MAX as i128),
        ColumnType::Int64 => (i64::MIN as i128, i64::MAX as i128),
        ColumnType::Uint8 => (0, u8::MAX as i128),
        ColumnType::Uint16 => (0, u16::MAX as i128),
        ColumnType::Uint32 => (0, u32::MAX as i128),
        _ => (0, u64::MAX as i128),
    };
    match literal_in(&cs, signed) {
        Some(v) => {
            if lo <= v && v <= hi {
                if signed {
                    Ok(Value::Signed(v as i64))
                } else {
                    Ok(Value::Unsigned(v as u64))
                }
            } else {
                Err(StorageError::TypeMismatch { column: column.clone(), expected: t, got: lit.clone() })
            }
        },
        None => Err(StorageError::TypeMismatch { column: column.clone(), expected: t, got: lit.clone() }),
    }
}

proof fn lemma_data_index_mono(cols: Seq<(Seq<char>, ColumnType)>, i: int, j: int)
    requires
        0 <= i <= j,
    ensures
        data_index(cols, i) <= data_index(cols, j),
    decreases j - i,
{
    if i < j {
        lemma_data_index_mono(cols, i, j - 1);
    }
}

proof fn lemma_first_cell_error_skip(cols: Seq<(Seq<char>, ColumnType)>, vals: Seq<Seq<char>>, id: u64, a: int, j: int)
    requires
        0 <= a <= j,
        forall|k: int| a <= k < j ==> cell(cols, vals, id, k) is Ok,
    ensures
        first_cell_error(cols, vals, id, a) == first_cell_error(cols, vals, id, j),
    decreases j - a,
{
    if a < j {
        lemma_first_cell_error_skip(cols, vals, id, a + 1, j);
    }
}

proof fn lemma_column_index_prefix(cols: Seq<(Seq<char>, ColumnType)>, name: Seq<char>, k: int)
    requires
        0 <= k <= cols.len(),
        column_index(cols.subrange(0, k), name) is Some,
    ensures
        column_index(cols, name) == column_index(cols.subrange(0, k), name),
    decreases cols.len(),
{
    if cols.len() == k {
        assert(cols.subrange(0, k) =~= cols);
    } else {
        assert(cols.drop_last().subrange(0, k) =~= cols.subrange(0, k));
        lemma_column_index_prefix(cols.drop_last(), name, k);
    }
}

proof fn lemma_column_index_bound(cols: Seq<(Seq<char>, ColumnType)>, name: Seq<char>)
    ensures
        column_index(cols, name) matches Some(j) ==> 0 <= j < cols.len(),
    decreases cols.len(),
{
    if cols.len() > 0 {
        lemma_column_index_bound(cols.drop_last(), name);
    }
}

proof fn lemma_first_unknown_prefix(cols: Seq<(Seq<char>, ColumnType)>, names: Seq<Seq<char>>, k: int)
    requires
        0 <= k <= names.len(),
        first_unknown(cols, names.subrange(0, k)) is Some,
    ensures
        first_unknown(cols, names) == first_unknown(cols, names.subrange(0, k)),
    decreases names.len(),
{
    if names.len() == k {
        assert(names.subrange(0, k) =~= names);
    } else {
        assert(names.drop_last().subrange(0, k) =~= names.subrange(0, k));
        lemma_first_unknown_prefix(cols, names.drop_last(), k);
    }
}

/// The position of the first column named `name`.
fn column_position(columns: &Vec<ColumnDef>, name: &String) -> (r: Option<usize>)
    ensures
        r is None ==> column_index(columns_view(columns@), name@) is None,
        r matches Some(j) ==> column_index(columns_view(columns@), name@) == Some(j as int) && j < columns@.len(),
{
    let ghost cols = columns_view(columns@);
    let mut k: usize = 0;
    assert(cols.subrange(0, 0) =~= Seq::<(Seq<char>, ColumnType)>::empty());
    while k < columns.len()
        invariant
            cols == columns_view(columns@),
            k <= columns@.len(),
            column_index(cols.subrange(0, k as int), name@) is None,
        decreases columns@.len() - k,
    {
        assert(cols.subrange(0, k + 1).drop_last() =~= cols.subrange(0, k as int));
        if same_name_exec(&columns[k].name, name) {
            assert(column_index(cols.subrange(0, k + 1), name@) == Some(k as int));
            proof {
                lemma_column_index_prefix(cols, name@, k + 1);
            }
            return Some(k);
        }
        k = k + 1;
    }
    assert(cols.subrange(0, k as int) =~= cols);
    None
}

impl Database {
    /// A database with no tables.
    pub fn new() -> (r: Database)
        ensures
            r@ == Seq::<TableModel>::empty(),
            db_wf(r@),
    {
        let r = Database { tables: Vec::new() };
        assert(r@ =~= Seq::<TableModel>::empty());
        r
    }

    /// The position of the table named `name`.
    fn find_table(&self, name: &String) -> (r: Option<usize>)
        requires
            db_wf(self@),
        ensures
            r is None ==> !has_table(self@, name@),
            r matches Some(i) ==> i < self@.len() && same_name(self@[i as int].name, name@) && has_table(self@, name@)
                && table_index(self@, name@) == i,
    {
        let mut i: usize = 0;
        while i < self.tables.len()
            invariant
                i <= self.tables@.len(),
                db_wf(self@),
                self@.len() == self.tables@.len(),
                forall|k: int| 0 <= k < i ==> !same_name((#[trigger] self@[k]).name, name@),
            decreases self.tables@.len() - i,
        {
            assert(self@[i as int] == self.tables@[i as int]@);
            if same_name_exec(&self.tables[i].name, name) {
                assert(same_name(self@[i as int].name, name@));
                assert(has_table(self@, name@));
                let ghost j = table_index(self@, name@);
                assert(same_name(self@[j].name, name@));
                assert(same_name(self@[j].name, self@[i as int].name));
                return Some(i);
            }
            i = i + 1;
        }
        None
    }

    /// Adds an empty table named `name` with `columns`, unless a table of that
    /// name exists, no column is given, or two columns share a name.
    pub fn create_table(&mut self, name: &String, columns: &Vec<ColumnDef>) -> (r: Result<(), StorageError>)
        requires
            db_wf(old(self)@),
        ensures
            db_wf(final(self)@),
            (final(self)@, unit_view(r)) == create_spec(old(self)@, name@, columns_view(columns@)),
    {
        if self.find_table(name).is_some() {
            return Err(StorageError::TableAlreadyExists { name: name.clone() });
        }
        if columns.len() == 0 {
            return Err(StorageError::EmptyColumnList { table: name.clone() });
        }
        match find_duplicate(columns) {
            Some(j) => Err(StorageError::DuplicateColumnName { name: columns[j].name.clone() }),
            None => {
                let t = Table { name: name.clone(), columns: copy_columns(columns), rows: Vec::new() };
                assert(t@.rows =~= Seq::<Seq<ValueModel>>::empty());
                let ghost prev = self@;
                self.tables.push(t);
                assert(self@ =~= prev.push(t@));
                Ok(())
            },
        }
    }

    /// Removes the table named `name`, with all its rows.
    pub fn drop_table(&mut self, name: &String) -> (r: Result<(), StorageError>)
        requires
            db_wf(old(self)@),
        ensures
            db_wf(final(self)@),
            (final(self)@, unit_view(r)) == drop_spec(old(self)@, name@),
    {
        match self.find_table(name) {
            None => Err(StorageError::UnknownTable { name: name.clone() }),
            Some(i) => {
                let ghost prev = self@;
                self.tables.remove(i);
                assert(self@ =~= prev.remove(i as int));
                Ok(())
            },
        }
    }

    /// Appends a row built from `values`, bound in order to the columns that are
    /// not `Id` columns; each `Id` column gets the table's next id, which is returned.
    pub fn insert(&mut self, name: &String, values: &Vec<String>) -> (r: Result<Option<u64>, StorageError>)
        requires
            db_wf(old(self)@),
        ensures
            db_wf(final(self)@),
            (final(self)@, match r {
                Ok(id) => Ok::<Option<u64>, StorageErrorModel>(id),
                Err(e) => Err(e@),
            }) == insert_spec(old(self)@, name@, strings_view(values@)),
    {
        let ghost vals = strings_view(values@);
        let i = match self.find_table(name) {
            None => {
                return Err(StorageError::UnknownTable { name: name.clone() });
            },
            Some(i) => i,
        };
        let ghost t = self@[i as int];
        assert(t == self.tables@[i as int]@);
        let ghost cols = t.columns;
        let ghost db0 = self@;
        let ncols = self.tables[i].columns.len();
        let mut dc: usize = 0;
        let mut j: usize = 0;
        while j < ncols
            invariant
                i < self.tables@.len(),
                self@ == db0,
                db_wf(db0),
                t == db0[i as int],
                cols == t.columns,
                cols == columns_view(self.tables@[i as int].columns@),
                ncols == cols.len(),
                j <= ncols,
                dc == data_index(cols, j as int),
                dc <= j,
            decreases ncols - j,
        {
            if self.tables[i].columns[j].column_type != ColumnType::Id {
                dc = dc + 1;
            }
            j = j + 1;
        }
        if values.len() != dc {
            return Err(StorageError::ColumnCountMismatch { expected: dc, got: values.len() });
        }
        let nrows = self.tables[i].rows.len();
        if nrows as u128 >= (u64::MAX - 1) as u128 {
            return Err(StorageError::TableFull { name: name.clone() });
        }
        let id: u64 = nrows as u64 + 1;
        assert(id == next_id(t));
        let mut row: Vec<Value> = Vec::new();
        let mut has_id = false;
        let mut v: usize = 0;
        let mut j: usize = 0;
        while j < ncols
            invariant
                i < self.tables@.len(),
                self@ == db0,
                db_wf(db0),
                t == db0[i as int],
                cols == t.columns,
                cols == columns_view(self.tables@[i as int].columns@),
                ncols == cols.len(),
                vals == strings_view(values@),
                vals.len() == data_count(cols),
                vals.len() == values@.len(),
                vals.len() == dc,
                has_table(db0, name@),
                table_index(db0, name@) == i,
                id == next_id(t),
                t.rows.len() < max_rows(),
                j <= ncols,
                v == data_index(cols, j as int),
                row@.len() == j,
                forall|k: int| 0 <= k < j ==> cell(cols, vals, id, k) is Ok,
                forall|k: int| 0 <= k < j ==> (#[trigger] row@[k])@ == cell(cols, vals, id, k)->Ok_0,
                has_id == exists|k: int| 0 <= k < j && (#[trigger] cols[k]).1 == ColumnType::Id,
            decreases ncols - j,
        {
            let col = &self.tables[i].columns[j];
            assert(cols[j as int] == col@);
            if col.column_type == ColumnType::Id {
                row.push(Value::Id(id));
                has_id = true;
            } else {
                proof {
                    lemma_data_index_mono(cols, j as int + 1, cols.len() as int);
                }
                assert(data_index(cols, j as int + 1) == v + 1);
                assert(vals[v as int] == values@[v as int]@);
                match coerce_in(&col.name, col.column_type, &values[v]) {
                    Err(e) => {
                        assert(cell(cols, vals, id, j as int) == Err::<ValueModel, StorageErrorModel>(e@));
                        assert(first_cell_error(cols, vals, id, j as int) == Some(e@));
                        proof {
                            lemma_first_cell_error_skip(cols, vals, id, 0, j as int);
                        }
                        return Err(e);
                    },
                    Ok(x) => {
                        row.push(x);
                    },
                }
                v = v + 1;
            }
            j = j + 1;
        }
        proof {
            lemma_first_cell_error_skip(cols, vals, id, 0, ncols as int);
        }
        assert(row_view(row@) =~= bound_row(cols, vals, id));
        let ghost prev = self@;
        let mut table = self.tables.remove(i);
        let ghost rows_before = table.rows@;
        table.rows.push(row);
        assert(rows_view(table.rows@) =~= rows_view(rows_before).push(bound_row(cols, vals, id)));
        self.tables.insert(i, table);
        assert(self@ =~= prev.update(i as int, TableModel { rows: t.rows.push(bound_row(cols, vals, id)), ..t }));
        if has_id {
            Ok(Some(id))
        } else {
            Ok(None)
        }
    }

    /// The rows of the table named `name`, in insertion order, each cut down to
    /// the named columns in the order given; all columns when none is named.
    pub fn select(&self, name: &String, columns: &Vec<String>) -> (r: Result<Vec<Vec<Value>>, StorageError>)
        requires
            db_wf(self@),
        ensures
            match r {
                Ok(rows) => select_spec(self@, name@, strings_view(columns@)) == Ok::<Seq<Seq<ValueModel>>, StorageErrorModel>(rows_view(rows@)),
                Err(e) => select_spec(self@, name@, strings_view(columns@)) == Err::<Seq<Seq<ValueModel>>, StorageErrorModel>(e@),
            },
    {
        let ghost names = strings_view(columns@);
        let i = match self.find_table(name) {
            None => {
                return Err(StorageError::UnknownTable { name: name.clone() });
            },
            Some(i) => i,
        };
        let table = &self.tables[i];
        let ghost t = self@[i as int];
        assert(t == table@);
        let ghost cols = t.columns;
        let ncols = table.columns.len();
        let mut positions: Vec<usize> = Vec::new();
        if columns.len() == 0 {
            let mut k: usize = 0;
            while k < ncols
                invariant
                    k <= ncols,
                    positions@.len() == k,
                    forall|j: int| 0 <= j < k ==> positions@[j] == j,
                decreases ncols - k,
            {
                positions.push(k);
                k = k + 1;
            }
        } else {
            let mut k: usize = 0;
            assert(names.subrange(0, 0) =~= Seq::<Seq<char>>::empty());
            while k < columns.len()
                invariant
                    cols == columns_view(table.columns@),
                    names == strings_view(columns@),
                    has_table(self@, name@),
                    table_index(self@, name@) == i,
                    t == self@[i as int],
                    cols == t.columns,
                    k <= columns@.len(),
                    positions@.len() == k,
                    first_unknown(cols, names.subrange(0, k as int)) is None,
                    forall|j: int| 0 <= j < k ==> column_index(cols, #[trigger] names[j]) == Some(positions@[j] as int),
                    forall|j: int| 0 <= j < k ==> (#[trigger] positions@[j]) < ncols,
                    ncols == cols.len(),
                decreases columns@.len() - k,
            {
                assert(names.subrange(0, k + 1).drop_last() =~= names.subrange(0, k as int));
                assert(names[k as int] == columns@[k as int]@);
                match column_position(&table.columns, &columns[k]) {
                    None => {
                        assert(first_unknown(cols, names.subrange(0, k + 1)) == Some(names[k as int]));
                        proof {
                            lemma_first_unknown_prefix(cols, names, k + 1);
                        }
                        return Err(StorageError::UnknownColumn { name: columns[k].clone() });
                    },
                    Some(p) => {
                        positions.push(p);
                    },
                }
                k = k + 1;
            }
            assert(names.subrange(0, k as int) =~= names);
        }
        let ghost proj = projection(cols, names);
        assert(proj.len() == positions@.len());
        assert(forall|j: int| 0 <= j < proj.len() ==> proj[j] == positions@[j] as int);
        let mut out: Vec<Vec<Value>> = Vec::new();
        let nrows = table.rows.len();
        let mut r: usize = 0;
        while r < nrows
            invariant
                t == table@,
                db_wf(self@),
                table_wf(t),
                cols == t.columns,
                ncols == cols.len(),
                nrows == t.rows.len(),
                r <= nrows,
                proj.len() == positions@.len(),
                forall|j: int| 0 <= j < proj.len() ==> proj[j] == positions@[j] as int,
                forall|j: int| 0 <= j < positions@.len() ==> (#[trigger] positions@[j]) < ncols,
                out@.len() == r,
                forall|q: int| 0 <= q < r ==> row_view((#[trigger] out@[q])@) == proj.map_values(|j: int| t.rows[q][j]),
            decreases nrows - r,
        {
            let row = &table.rows[r];
            assert(row_view(row@) == t.rows[r as int]);
            let mut cells: Vec<Value> = Vec::new();
            let mut k: usize = 0;
            while k < positions.len()
                invariant
                    row_view(row@) == t.rows[r as int],
                    row@.len() == ncols,
                    k <= positions@.len(),
                    proj.len() == positions@.len(),
                    forall|j: int| 0 <= j < proj.len() ==> proj[j] == positions@[j] as int,
                    forall|j: int| 0 <= j < positions@.len() ==> (#[trigger] positions@[j]) < ncols,
                    cells@.len() == k,
                    forall|j: int| 0 <= j < k ==> (#[trigger] cells@[j])@ == t.rows[r as int][proj[j]],
                decreases positions@.len() - k,
            {
                cells.push(copy_value(&row[positions[k]]));
                k = k + 1;
            }
            assert(row_view(cells@) =~= proj.map_values(|j: int| t.rows[r as int][j]));
            out.push(cells);
            r = r + 1;
        }
        assert(rows_view(out@) =~= t.rows.map_values(|rw: Seq<ValueModel>| proj.map_values(|j: int| rw[j])));
        Ok(out)
    }
}

} // verus!

verus! {

/// Creating a table and then dropping it leaves no table of that name behind:
/// a select on it afterwards reports an unknown table.
pub proof fn lemma_create_drop_select(
    db: Seq<TableModel>,
    name: Seq<char>,
    cols: Seq<(Seq<char>, ColumnType)>,
    names: Seq<Seq<char>>,
)
    requires
        db_wf(db),
        create_spec(db, name, cols).1 is Ok,
    ensures
        drop_spec(create_spec(db, name, cols).0, name).1 is Ok,
        select_spec(drop_spec(create_spec(db, name, cols).0, name).0, name, names)
            == Err::<Seq<Seq<ValueModel>>, StorageErrorModel>(StorageErrorModel::UnknownTable(name)),
{
    let db1 = create_spec(db, name, cols).0;
    let n = db.len() as int;
    assert(same_name(db1[n].name, name));
    assert(has_table(db1, name));
    let i = table_index(db1, name);
    if i != n {
        assert(same_name(db[i].name, name));
        assert(false);
    }
    assert(db1.remove(n) =~= db);
}

/// Inserting into a table that does not exist fails with an unknown table and
/// changes nothing: in particular it creates no table of that name.
pub proof fn lemma_insert_unknown_table(db: Seq<TableModel>, name: Seq<char>, vals: Seq<Seq<char>>)
    requires
        !has_table(db, name),
    ensures
        insert_spec(db, name, vals) == (db, Err::<Option<u64>, StorageErrorModel>(StorageErrorModel::UnknownTable(name))),
        !has_table(insert_spec(db, name, vals).0, name),
{
}

/// A `Char255` value of exactly 255 bytes is stored; one of 256 bytes is too long.
pub proof fn lemma_char255_boundary(column: Seq<char>, lit: Seq<char>)
    ensures
        utf8_len(lit) == 255 ==> coerce(column, ColumnType::Char255, lit) == Ok::<ValueModel, StorageErrorModel>(
            ValueModel::Text(lit),
        ),
        utf8_len(lit) == 256 ==> coerce(column, ColumnType::Char255, lit) == Err::<ValueModel, StorageErrorModel>(
            StorageErrorModel::ValueTooLong(column, 255),
        ),
{
}

proof fn lemma_cells_ok(cols: Seq<(Seq<char>, ColumnType)>, vals: Seq<Seq<char>>, id: u64, a: int)
    requires
        0 <= a,
        first_cell_error(cols, vals, id, a) is None,
    ensures
        forall|k: int| a <= k < cols.len() ==> cell(cols, vals, id, k) is Ok,
    decreases cols.len() - a,
{
    if a < cols.len() {
        lemma_cells_ok(cols, vals, id, a + 1);
    }
}

/// What an insert leaves: a well-formed database, the table at the same place
/// with the same columns, and one more row exactly when it succeeded.
pub proof fn lemma_insert_keeps(db: Seq<TableModel>, name: Seq<char>, vals: Seq<Seq<char>>)
    requires
        db_wf(db),
        has_table(db, name),
    ensures
        db_wf(insert_spec(db, name, vals).0),
        has_table(insert_spec(db, name, vals).0, name),
        table_index(insert_spec(db, name, vals).0, name) == table_index(db, name),
        insert_spec(db, name, vals).0[table_index(db, name)].columns == db[table_index(db, name)].columns,
        insert_spec(db, name, vals).0[table_index(db, name)].rows.len() == db[table_index(db, name)].rows.len() + if insert_spec(
            db,
            name,
            vals,
        ).1 is Ok {
            1int
        } else {
            0int
        },
{
    let i = table_index(db, name);
    let d = insert_spec(db, name, vals).0;
    assert(d.len() == db.len());
    assert(forall|k: int| 0 <= k < d.len() ==> (#[trigger] d[k]).name == db[k].name);
    assert(same_name(d[i].name, name));
    let j = table_index(d, name);
    assert(same_name(d[j].name, name));
    assert(same_name(db[j].name, db[i].name));
    if insert_spec(db, name, vals).1 is Ok {
        let t = db[i];
        let row = bound_row(t.columns, vals, next_id(t));
        assert(forall|k: int| 0 <= k < d.len() && k != i ==> d[k] == db[k]);
        assert(table_wf(d[i])) by {
            assert forall|r: int| 0 <= r < d[i].rows.len() implies (#[trigger] d[i].rows[r]).len() == d[i].columns.len() by {
                if r < t.rows.len() {
                    assert(d[i].rows[r] == t.rows[r]);
                    assert(table_wf(db[i]));
                }
            }
        }
        assert(forall|k: int| 0 <= k < d.len() ==> table_wf(#[trigger] d[k]));
    }
}

/// After a successful insert, selecting all columns gives the inserted row
/// last, its values in declared column order: the new id in each `Id` column,
/// the literal's text in each `Char255` column, and the literal's integer in
/// each integer column, as a signed or unsigned value by the column's type.
pub proof fn lemma_insert_select(db: Seq<TableModel>, name: Seq<char>, vals: Seq<Seq<char>>)
    requires
        db_wf(db),
        insert_spec(db, name, vals).1 is Ok,
    ensures
        ({
            let t = db[table_index(db, name)];
            let cols = t.columns;
            match select_spec(insert_spec(db, name, vals).0, name, Seq::empty()) {
                Ok(rows) => rows.len() == t.rows.len() + 1 && rows.last().len() == cols.len() && forall|j: int|
                    0 <= j < cols.len() ==> {
                        let lit = vals[data_index(cols, j) as int];
                        &&& (#[trigger] cols[j]).1 == ColumnType::Id ==> rows.last()[j] == ValueModel::Id(next_id(t))
                        &&& cols[j].1 == ColumnType::Char255 ==> rows.last()[j] == ValueModel::Text(lit)
                        &&& is_signed(cols[j].1) ==> rows.last()[j] == ValueModel::Signed(
                            literal_int(lit, true)->Some_0 as i64,
                        )
                        &&& cols[j].1 != ColumnType::Id && cols[j].1 != ColumnType::Char255 && !is_signed(cols[j].1)
                            ==> rows.last()[j] == ValueModel::Unsigned(literal_int(lit, false)->Some_0 as u64)
                    },
                Err(_) => false,
            }
        }),
{
    let i = table_index(db, name);
    let t = db[i];
    let cols = t.columns;
    lemma_insert_keeps(db, name, vals);
    lemma_cells_ok(cols, vals, next_id(t), 0);
    let d = insert_spec(db, name, vals).0;
    assert(d[i].columns == cols);
    assert(first_unknown(cols, Seq::empty()) is None);
    let p = projection(cols, Seq::empty());
    let row = bound_row(cols, vals, next_id(t));
    assert(d[i].rows.last() == row);
    assert(p.map_values(|j: int| row[j]) =~= row);
}

/// The rows a run of inserts into one table adds, and the ids the successful
/// ones return, in order.
pub open spec fn insert_ids(db: Seq<TableModel>, name: Seq<char>, batch: Seq<Seq<Seq<char>>>) -> (Seq<TableModel>, Seq<u64>)
    decreases batch.len(),
{
    if batch.len() == 0 {
        (db, Seq::empty())
    } else {
        let (d, ids) = insert_ids(db, name, batch.drop_last());
        let (d2, r) = insert_spec(d, name, batch.last());
        (d2, match r {
            Ok(Some(id)) => ids.push(id),
            _ => ids,
        })
    }
}

/// Inserting rows one after another into an empty table that has an `Id`
/// column gives the successful inserts the ids 1, 2, 3, ... in order; a failed
/// insert uses no id and changes nothing.
pub proof fn lemma_ids_increase(db: Seq<TableModel>, name: Seq<char>, batch: Seq<Seq<Seq<char>>>)
    requires
        db_wf(db),
        has_table(db, name),
        db[table_index(db, name)].rows.len() == 0,
        has_id_column(db[table_index(db, name)].columns),
    ensures
        ({
            let (d, ids) = insert_ids(db, name, batch);
            &&& db_wf(d)
            &&& has_table(d, name)
            &&& table_index(d, name) == table_index(db, name)
            &&& d[table_index(db, name)].columns == db[table_index(db, name)].columns
            &&& d[table_index(db, name)].rows.len() == ids.len()
            &&& forall|k: int| 0 <= k < ids.len() ==> ids[k] == k + 1
        }),
    decreases batch.len(),
{
    if batch.len() > 0 {
        lemma_ids_increase(db, name, batch.drop_last());
        let (d, ids) = insert_ids(db, name, batch.drop_last());
        lemma_insert_keeps(d, name, batch.last());
        let i = table_index(db, name);
        let (d2, r) = insert_spec(d, name, batch.last());
        if r is Ok {
            assert(r == Ok::<Option<u64>, StorageErrorModel>(Some(next_id(d[i]))));
        }
    }
}

} // verus!
