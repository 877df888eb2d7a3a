//! Statement parser: turns a batch of `;`-separated statements into typed
//! statements, or the first parse error of the batch.
use vstd::prelude::*;
use vstd::string::StrSliceExecFns;
use vstd::string::StringExecFns;
use itertools::Itertools;
use crate::text::{
    chars_of, find, find_in, lowercase, lower_of, pieces, range_is, range_starts_with, split_ranges, starts_with,
    trim, trim_range,
};

verus! {

/// The scalar types a column can have.
#[derive(Clone, Copy, Debug, PartialEq, Eq, Structural)]
pub enum ColumnType {
    Id,
    Char255,
    Int8,
    Int16,
    Int32,
    Int64,
    Uint8,
    Uint16,
    Uint32,
    Uint64,
}

/// A column of a table: its name and its type.
#[derive(Clone, Debug, PartialEq, Eq)]
pub struct ColumnDef {
    pub name: String,
    pub column_type: ColumnType,
}

impl View for ColumnDef {
    type V = (Seq<char>, ColumnType);

    open spec fn view(&self) -> (Seq<char>, ColumnType) {
        (self.name@, self.column_type)
    }
}

/// One parsed statement.
#[derive(Clone, Debug, PartialEq, Eq)]
pub enum SqlStatement {
    CreateTable { name: String, columns: Vec<ColumnDef> },
    Select { table: String, columns: Vec<String> },
    Insert { table: String, values: Vec<String> },
    Drop { table: String },
}

/// A statement as values: names and literals as character sequences.
pub enum StatementModel {
    CreateTable { name: Seq<char>, columns: Seq<(Seq<char>, ColumnType)> },
    Select { table: Seq<char>, columns: Seq<Seq<char>> },
    Insert { table: Seq<char>, values: Seq<Seq<char>> },
    Drop { table: Seq<char> },
}

pub open spec fn strings_view(v: Seq<String>) -> Seq<Seq<char>> {
    v.map_values(|s: String| s@)
}

pub open spec fn columns_view(v: Seq<ColumnDef>) -> Seq<(Seq<char>, ColumnType)> {
    v.map_values(|c: ColumnDef| c@)
}

impl View for SqlStatement {
    type V = StatementModel;

    open spec fn view(&self) -> StatementModel {
        match self {
            SqlStatement::CreateTable { name, columns } => StatementModel::CreateTable {
                name: name@,
                columns: columns_view(columns@),
            },
            SqlStatement::Select { table, columns } => StatementModel::Select {
                table: table@,
                columns: strings_view(columns@),
            },
            SqlStatement::Insert { table, values } => StatementModel::Insert {
                table: table@,
                values: strings_view(values@),
            },
            SqlStatement::Drop { table } => StatementModel::Drop { table: table@ },
        }
    }
}

/// Why a statement could not be parsed; each kind carries the offending text.
#[derive(Clone, Debug, PartialEq, Eq)]
pub enum ParserError {
    UnsupportedStatementError { statement: String },
    UnknownStatementError { statement: String },
    MissingValuesClauseError,
    MissingTableNameError { statement: String },
    UnknownColumnTypeError { token: String },
    MalformedColumnListError { text: String },
    MalformedValueListError { text: String },
}

/// A parse error as values.
pub enum ParseErrorModel {
    UnsupportedStatement(Seq<char>),
    UnknownStatement(Seq<char>),
    MissingValuesClause,
    MissingTableName(Seq<char>),
    UnknownColumnType(Seq<char>),
    MalformedColumnList(Seq<char>),
    MalformedValueList(Seq<char>),
}

impl View for ParserError {
    type V = ParseErrorModel;

    open spec fn view(&self) -> ParseErrorModel {
        match self {
            ParserError::UnsupportedStatementError { statement } => ParseErrorModel::UnsupportedStatement(statement@),
            ParserError::UnknownStatementError { statement } => ParseErrorModel::UnknownStatement(statement@),
            ParserError::MissingValuesClauseError => ParseErrorModel::MissingValuesClause,
            ParserError::MissingTableNameError { statement } => ParseErrorModel::MissingTableName(statement@),
            ParserError::UnknownColumnTypeError { token } => ParseErrorModel::UnknownColumnType(token@),
            ParserError::MalformedColumnListError { text } => ParseErrorModel::MalformedColumnList(text@),
            ParserError::MalformedValueListError { text } => ParseErrorModel::MalformedValueList(text@),
        }
    }
}

/// A parsed batch of statements, in the order they were written.
#[derive(Debug, PartialEq, Eq)]
pub struct Sql {
    pub statements: Vec<SqlStatement>,
}

pub open spec fn statements_view(v: Seq<SqlStatement>) -> Seq<StatementModel> {
    v.map_values(|s: SqlStatement| s@)
}

impl View for Sql {
    type V = Seq<StatementModel>;

    open spec fn view(&self) -> Seq<StatementModel> {
        statements_view(self.statements@)
    }
}

pub open spec fn result_view<T: View, E: View>(r: Result<T, E>) -> Result<T::V, E::V> {
    match r {
        Ok(t) => Ok(t@),
        Err(e) => Err(e@),
    }
}

pub open spec fn kw_insert_into() -> Seq<char> {
    seq!['i', 'n', 's', 'e', 'r', 't', ' ', 'i', 'n', 't', 'o']
}

pub open spec fn kw_insert() -> Seq<char> {
    seq!['i', 'n', 's', 'e', 'r', 't']
}

pub open spec fn kw_values() -> Seq<char> {
    seq!['v', 'a', 'l', 'u', 'e', 's']
}

pub open spec fn kw_select() -> Seq<char> {
    seq!['s', 'e', 'l', 'e', 'c', 't']
}

pub open spec fn kw_from() -> Seq<char> {
    seq!['f', 'r', 'o', 'm']
}

pub open spec fn kw_drop_table() -> Seq<char> {
    seq!['d', 'r', 'o', 'p', ' ', 't', 'a', 'b', 'l', 'e']
}

pub open spec fn kw_drop() -> Seq<char> {
    seq!['d', 'r', 'o', 'p']
}

pub open spec fn kw_create_table() -> Seq<char> {
    seq!['c', 'r', 'e', 'a', 't', 'e', ' ', 't', 'a', 'b', 'l', 'e']
}

/// The type a lower-case type keyword names.
pub open spec fn column_type_of(tok: Seq<char>) -> Option<ColumnType> {
    if tok == seq!['i', 'd'] {
        Some(ColumnType::Id)
    } else if tok == seq!['c', 'h', 'a', 'r', '2', '5', '5'] {
        Some(ColumnType::Char255)
    } else if tok == seq!['i', 'n', 't', '8'] {
        Some(ColumnType::Int8)
    } else if tok == seq!['i', 'n', 't', '1', '6'] {
        Some(ColumnType::Int16)
    } else if tok == seq!['i', 'n', 't', '3', '2'] {
        Some(ColumnType::Int32)
    } else if tok == seq!['i', 'n', 't', '6', '4'] {
        Some(ColumnType::Int64)
    } else if tok == seq!['u', 'i', 'n', 't', '8'] {
        Some(ColumnType::Uint8)
    } else if tok == seq!['u', 'i', 'n', 't', '1', '6'] {
        Some(ColumnType::Uint16)
    } else if tok == seq!['u', 'i', 'n', 't', '3', '2'] {
        Some(ColumnType::Uint32)
    } else if tok == seq!['u', 'i', 'n', 't', '6', '4'] {
        Some(ColumnType::Uint64)
    } else {
        None
    }
}

/// The trimmed pieces of a comma-separated list; none when one of them is blank.
/// A blank list has no items.
pub open spec fn list_items(s: Seq<char>) -> Option<Seq<Seq<char>>> {
    if trim(s).len() == 0 {
        Some(Seq::empty())
    } else {
        let ps = pieces(s, ',').map_values(|p: Seq<char>| trim(p));
        if exists|k: int| 0 <= k < ps.len() && (#[trigger] ps[k]).len() == 0 {
            None
        } else {
            Some(ps)
        }
    }
}

/// The items of a parenthesised list such as `(a, b)`.
pub open spec fn paren_items(s: Seq<char>) -> Option<Seq<Seq<char>>> {
    if s.len() >= 2 && s[0] == '(' && s.last() == ')' {
        list_items(s.subrange(1, s.len() - 1))
    } else {
        None
    }
}

/// One column definition, `<name> <type>`.
pub open spec fn column_def(item: Seq<char>) -> Result<(Seq<char>, ColumnType), ParseErrorModel> {
    match find(item, seq![' ']) {
        None => Err(ParseErrorModel::MalformedColumnList(item)),
        Some(j) => {
            let tok = trim(item.subrange(j + 1, item.len() as int));
            match column_type_of(tok) {
                None => Err(ParseErrorModel::UnknownColumnType(tok)),
                Some(t) => Ok((item.subrange(0, j), t)),
            }
        },
    }
}

/// The column definitions of a list, or the error of the first bad one.
pub open spec fn column_defs(items: Seq<Seq<char>>) -> Result<Seq<(Seq<char>, ColumnType)>, ParseErrorModel>
    decreases items.len(),
{
    if items.len() == 0 {
        Ok(Seq::empty())
    } else {
        match column_defs(items.drop_last()) {
            Err(e) => Err(e),
            Ok(ds) => match column_def(items.last()) {
                Err(e) => Err(e),
                Ok(d) => Ok(ds.push(d)),
            },
        }
    }
}

/// `insert into <table> values (<literal>, ...)`, given the text after `insert into`.
pub open spec fn parse_insert(rest: Seq<char>) -> Result<StatementModel, ParseErrorModel> {
    match find(rest, kw_values()) {
        None => Err(ParseErrorModel::MissingValuesClause),
        Some(k) => {
            let table = trim(rest.subrange(0, k));
            let list = trim(rest.subrange(k + kw_values().len(), rest.len() as int));
            if table.len() == 0 {
                Err(ParseErrorModel::MissingTableName(kw_insert()))
            } else {
                match paren_items(list) {
                    None => Err(ParseErrorModel::MalformedValueList(list)),
                    Some(vs) => Ok(StatementModel::Insert { table, values: vs }),
                }
            }
        },
    }
}

/// `select <col>, ... from <table>` or `select * from <table>`, given the text after `select`.
pub open spec fn parse_select(rest: Seq<char>) -> Result<StatementModel, ParseErrorModel> {
    match find(rest, kw_from()) {
        None => Err(ParseErrorModel::MissingTableName(kw_select())),
        Some(k) => {
            let table = trim(rest.subrange(k + kw_from().len(), rest.len() as int));
            let cols = trim(rest.subrange(0, k));
            if table.len() == 0 {
                Err(ParseErrorModel::MissingTableName(kw_select()))
            } else if cols.len() == 0 || cols == seq!['*'] {
                Ok(StatementModel::Select { table, columns: Seq::empty() })
            } else {
                match list_items(cols) {
                    None => Err(ParseErrorModel::MalformedColumnList(cols)),
                    Some(cs) => Ok(StatementModel::Select { table, columns: cs }),
                }
            }
        },
    }
}

/// `drop table <name>`, given the text after `drop table`.
pub open spec fn parse_drop(rest: Seq<char>) -> Result<StatementModel, ParseErrorModel> {
    let table = trim(rest);
    if table.len() == 0 {
        Err(ParseErrorModel::MissingTableName(kw_drop()))
    } else {
        Ok(StatementModel::Drop { table })
    }
}

/// `create table <name> (<col> <type>, ...)`, given the text after `create table`.
pub open spec fn parse_create(rest: Seq<char>) -> Result<StatementModel, ParseErrorModel> {
    match find(rest, seq!['(']) {
        None => Err(ParseErrorModel::MalformedColumnList(trim(rest))),
        Some(k) => {
            let name = trim(rest.subrange(0, k));
            let list = trim(rest.subrange(k, rest.len() as int));
            if name.len() == 0 {
                Err(ParseErrorModel::MissingTableName(kw_create_table()))
            } else {
                match paren_items(list) {
                    None => Err(ParseErrorModel::MalformedColumnList(list)),
                    Some(items) => match column_defs(items) {
                        Err(e) => Err(e),
                        Ok(columns) => Ok(StatementModel::CreateTable { name, columns }),
                    },
                }
            }
        },
    }
}

/// One statement of lower-case text, chosen by its leading keyword.
pub open spec fn parse_statement(b: Seq<char>) -> Result<StatementModel, ParseErrorModel> {
    if starts_with(b, kw_insert_into()) {
        parse_insert(b.subrange(kw_insert_into().len() as int, b.len() as int))
    } else if starts_with(b, kw_select()) {
        parse_select(b.subrange(kw_select().len() as int, b.len() as int))
    } else if starts_with(b, kw_drop_table()) {
        parse_drop(b.subrange(kw_drop_table().len() as int, b.len() as int))
    } else if starts_with(b, kw_create_table()) {
        parse_create(b.subrange(kw_create_table().len() as int, b.len() as int))
    } else {
        Err(ParseErrorModel::UnknownStatement(b))
    }
}

/// The trimmed, non-blank pieces among `ps`, in order.
pub open spec fn bodies(ps: Seq<Seq<char>>) -> Seq<Seq<char>>
    decreases ps.len(),
{
    if ps.len() == 0 {
        Seq::empty()
    } else {
        let b = bodies(ps.drop_last());
        let t = trim(ps.last());
        if t.len() > 0 {
            b.push(t)
        } else {
            b
        }
    }
}

/// The values of the `Ok` results among `rs`, in order.
pub open spec fn oks_of<T, E>(rs: Seq<Result<T, E>>) -> Seq<T>
    decreases rs.len(),
{
    if rs.len() == 0 {
        Seq::empty()
    } else {
        let p = oks_of(rs.drop_last());
        match rs.last() {
            Ok(t) => p.push(t),
            Err(_) => p,
        }
    }
}

/// The errors of the `Err` results among `rs`, in order.
pub open spec fn errs_of<T, E>(rs: Seq<Result<T, E>>) -> Seq<E>
    decreases rs.len(),
{
    if rs.len() == 0 {
        Seq::empty()
    } else {
        let p = errs_of(rs.drop_last());
        match rs.last() {
            Ok(_) => p,
            Err(e) => p.push(e),
        }
    }
}

/// The result of parsing each statement of lower-case `s`, in order.
pub open spec fn statement_results(s: Seq<char>) -> Seq<Result<StatementModel, ParseErrorModel>> {
    bodies(pieces(s, ';')).map_values(|b: Seq<char>| parse_statement(b))
}

/// A batch of lower-case text: all its statements, or the error of the first that fails.
pub open spec fn parse_batch(s: Seq<char>) -> Result<Seq<StatementModel>, ParseErrorModel> {
    let rs = statement_results(s);
    if errs_of(rs).len() > 0 {
        Err(errs_of(rs)[0])
    } else {
        Ok(oks_of(rs))
    }
}

/// The texts of `cs` over the ranges `v`.
pub open spec fn ranges_text(cs: Seq<char>, v: Seq<(usize, usize)>) -> Seq<Seq<char>> {
    v.map_values(|p: (usize, usize)| cs.subrange(p.0 as int, p.1 as int))
}

fn string_of(line: &str, a: usize, b: usize) -> (r: String)
    requires
        a <= b <= line@.len(),
    ensures
        r@ == line@.subrange(a as int, b as int),
{
    String::from_str(line.substring_char(a, b))
}

fn strings_of(line: &str, v: &Vec<(usize, usize)>) -> (r: Vec<String>)
    requires
        forall|k: int| 0 <= k < v@.len() ==> (#[trigger] v@[k]).0 <= v@[k].1 <= line@.len(),
    ensures
        strings_view(r@) == ranges_text(line@, v@),
{
    let mut r: Vec<String> = Vec::new();
    let mut k: usize = 0;
    while k < v.len()
        invariant
            k <= v@.len(),
            forall|j: int| 0 <= j < v@.len() ==> (#[trigger] v@[j]).0 <= v@[j].1 <= line@.len(),
            r@.len() == k,
            forall|j: int| 0 <= j < k ==> (#[trigger] r@[j])@ == line@.subrange(v@[j].0 as int, v@[j].1 as int),
        decreases v@.len() - k,
    {
        let (a, b) = v[k];
        let s = string_of(line, a, b);
        r.push(s);
        k = k + 1;
    }
    assert(strings_view(r@) =~= ranges_text(line@, v@));
    r
}

/// The ranges of the items of the comma-separated list `cs[lo..hi]`.
fn list_ranges(cs: &Vec<char>, lo: usize, hi: usize) -> (r: Option<Vec<(usize, usize)>>)
    requires
        lo <= hi <= cs@.len(),
    ensures
        r is None ==> list_items(cs@.subrange(lo as int, hi as int)) is None,
        r matches Some(v) ==> list_items(cs@.subrange(lo as int, hi as int)) == Some(ranges_text(cs@, v@))
            && forall|k: int| 0 <= k < v@.len() ==> lo <= (#[trigger] v@[k]).0 <= v@[k].1 <= hi,
{
    let ghost s = cs@.subrange(lo as int, hi as int);
    let (a, b) = trim_range(cs, lo, hi);
    if a == b {
        let v: Vec<(usize, usize)> = Vec::new();
        assert(ranges_text(cs@, v@) =~= Seq::<Seq<char>>::empty());
        return Some(v);
    }
    let rs = split_ranges(cs, lo, hi, ',');
    let ghost ps = pieces(s, ',').map_values(|p: Seq<char>| trim(p));
    let mut out: Vec<(usize, usize)> = Vec::new();
    let mut k: usize = 0;
    while k < rs.len()
        invariant
            lo <= hi <= cs@.len(),
            s == cs@.subrange(lo as int, hi as int),
            trim(s).len() > 0,
            ps == pieces(s, ',').map_values(|p: Seq<char>| trim(p)),
            rs@.len() == ps.len(),
            forall|j: int| 0 <= j < rs@.len() ==> lo <= (#[trigger] rs@[j]).0 <= rs@[j].1 <= hi
                && cs@.subrange(rs@[j].0 as int, rs@[j].1 as int) == pieces(s, ',')[j],
            k <= rs@.len(),
            out@.len() == k,
            ranges_text(cs@, out@) == ps.subrange(0, k as int),
            forall|j: int| 0 <= j < k ==> (#[trigger] ps[j]).len() > 0,
            forall|j: int| 0 <= j < out@.len() ==> lo <= (#[trigger] out@[j]).0 <= out@[j].1 <= hi,
        decreases rs@.len() - k,
    {
        let (p, q) = rs[k];
        let (c, d) = trim_range(cs, p, q);
        if c == d {
            assert(ps[k as int].len() == 0);
            return None;
        }
        out.push((c, d));
        k = k + 1;
        assert(ranges_text(cs@, out@) =~= ps.subrange(0, k as int));
    }
    assert(ps.subrange(0, k as int) =~= ps);
    Some(out)
}

/// The ranges of the items of a parenthesised list `cs[lo..hi]`.
fn paren_ranges(cs: &Vec<char>, lo: usize, hi: usize) -> (r: Option<Vec<(usize, usize)>>)
    requires
        lo <= hi <= cs@.len(),
    ensures
        r is None ==> paren_items(cs@.subrange(lo as int, hi as int)) is None,
        r matches Some(v) ==> paren_items(cs@.subrange(lo as int, hi as int)) == Some(ranges_text(cs@, v@))
            && forall|k: int| 0 <= k < v@.len() ==> lo <= (#[trigger] v@[k]).0 <= v@[k].1 <= hi,
{
    if hi - lo >= 2 && cs[lo] == '(' && cs[hi - 1] == ')' {
        let ghost s = cs@.subrange(lo as int, hi as int);
        assert(s.subrange(1, s.len() - 1) =~= cs@.subrange(lo + 1, hi - 1));
        list_ranges(cs, lo + 1, hi - 1)
    } else {
        None
    }
}

/// The type named by `cs[a..b]`.
fn column_type_in(cs: &Vec<char>, a: usize, b: usize) -> (r: Option<ColumnType>)
    requires
        a <= b <= cs@.len(),
    ensures
        r == column_type_of(cs@.subrange(a as int, b as int)),
{
    if range_is(cs, a, b, &vec!['i', 'd']) {
        Some(ColumnType::Id)
    } else if range_is(cs, a, b, &vec!['c', 'h', 'a', 'r', '2', '5', '5']) {
        Some(ColumnType::Char255)
    } else if range_is(cs, a, b, &vec!['i', 'n', 't', '8']) {
        Some(ColumnType::Int8)
    } else if range_is(cs, a, b, &vec!['i', 'n', 't', '1', '6']) {
        Some(ColumnType::Int16)
    } else if range_is(cs, a, b, &vec!['i', 'n', 't', '3', '2']) {
        Some(ColumnType::Int32)
    } else if range_is(cs, a, b, &vec!['i', 'n', 't', '6', '4']) {
        Some(ColumnType::Int64)
    } else if range_is(cs, a, b, &vec!['u', 'i', 'n', 't', '8']) {
        Some(ColumnType::Uint8)
    } else if range_is(cs, a, b, &vec!['u', 'i', 'n', 't', '1', '6']) {
        Some(ColumnType::Uint16)
    } else if range_is(cs, a, b, &vec!['u', 'i', 'n', 't', '3', '2']) {
        Some(ColumnType::Uint32)
    } else if range_is(cs, a, b, &vec!['u', 'i', 'n', 't', '6', '4']) {
        Some(ColumnType::Uint64)
    } else {
        None
    }
}

fn keyword_insert() -> (r: String)
    ensures
        r@ == kw_insert(),
{
    let r = String::from_str("insert");
    proof {
        reveal_strlit("insert");
    }
    assert(r@ =~= kw_insert());
    r
}

fn keyword_select() -> (r: String)
    ensures
        r@ == kw_select(),
{
    let r = String::from_str("select");
    proof {
        reveal_strlit("select");
    }
    assert(r@ =~= kw_select());
    r
}

fn keyword_drop() -> (r: String)
    ensures
        r@ == kw_drop(),
{
    let r = String::from_str("drop");
    proof {
        reveal_strlit("drop");
    }
    assert(r@ =~= kw_drop());
    r
}

fn keyword_create_table() -> (r: String)
    ensures
        r@ == kw_create_table(),
{
    let r = String::from_str("create table");
    proof {
        reveal_strlit("create table");
    }
    assert(r@ =~= kw_create_table());
    r
}

/// One column definition `cs[lo..hi]`.
fn column_def_in(line: &str, cs: &Vec<char>, lo: usize, hi: usize) -> (r: Result<ColumnDef, ParserError>)
    requires
        cs@ == line@,
        lo <= hi <= cs@.len(),
    ensures
        result_view(r) == column_def(cs@.subrange(lo as int, hi as int)),
{
    let ghost item = cs@.subrange(lo as int, hi as int);
    let space = vec![' '];
    assert(space@ =~= seq![' ']);
    match find_in(cs, lo, hi, &space) {
        None => Err(ParserError::MalformedColumnListError { text: string_of(line, lo, hi) }),
        Some(j) => {
            assert(item.subrange(j - lo + 1, item.len() as int) =~= cs@.subrange(j + 1, hi as int));
            assert(item.subrange(0, j - lo) =~= cs@.subrange(lo as int, j as int));
            let (a, b) = trim_range(cs, j + 1, hi);
            match column_type_in(cs, a, b) {
                None => Err(ParserError::UnknownColumnTypeError { token: string_of(line, a, b) }),
                Some(t) => Ok(ColumnDef { name: string_of(line, lo, j), column_type: t }),
            }
        },
    }
}

proof fn lemma_column_defs_err(items: Seq<Seq<char>>, k: int)
    requires
        0 <= k <= items.len(),
        column_defs(items.subrange(0, k)) is Err,
    ensures
        column_defs(items) == column_defs(items.subrange(0, k)),
    decreases items.len(),
{
    if items.len() == k {
        assert(items.subrange(0, k) =~= items);
    } else {
        assert(items.drop_last().subrange(0, k) =~= items.subrange(0, k));
        lemma_column_defs_err(items.drop_last(), k);
    }
}

/// The column definitions over the ranges `v`, or the error of the first bad one.
fn column_defs_in(line: &str, cs: &Vec<char>, v: &Vec<(usize, usize)>) -> (r: Result<Vec<ColumnDef>, ParserError>)
    requires
        cs@ == line@,
        forall|k: int| 0 <= k < v@.len() ==> (#[trigger] v@[k]).0 <= v@[k].1 <= cs@.len(),
    ensures
        match r {
            Ok(ds) => column_defs(ranges_text(cs@, v@)) == Ok::<Seq<(Seq<char>, ColumnType)>, ParseErrorModel>(columns_view(ds@)),
            Err(e) => column_defs(ranges_text(cs@, v@)) == Err::<Seq<(Seq<char>, ColumnType)>, ParseErrorModel>(e@),
        },
{
    let ghost items = ranges_text(cs@, v@);
    let mut out: Vec<ColumnDef> = Vec::new();
    let mut k: usize = 0;
    assert(items.subrange(0, 0) =~= Seq::<Seq<char>>::empty());
    assert(columns_view(out@) =~= Seq::<(Seq<char>, ColumnType)>::empty());
    while k < v.len()
        invariant
            cs@ == line@,
            items == ranges_text(cs@, v@),
            forall|j: int| 0 <= j < v@.len() ==> (#[trigger] v@[j]).0 <= v@[j].1 <= cs@.len(),
            k <= v@.len(),
            column_defs(items.subrange(0, k as int)) == Ok::<Seq<(Seq<char>, ColumnType)>, ParseErrorModel>(columns_view(out@)),
        decreases v@.len() - k,
    {
        let (a, b) = v[k];
        let d = column_def_in(line, cs, a, b);
        assert(items.subrange(0, k + 1).drop_last() =~= items.subrange(0, k as int));
        match d {
            Err(e) => {
                proof {
                    lemma_column_defs_err(items, k + 1);
                }
                return Err(e);
            },
            Ok(d) => {
                let ghost prev = out@;
                out.push(d);
                k = k + 1;
                assert(columns_view(out@) =~= columns_view(prev).push(out@.last()@));
            },
        }
    }
    assert(items.subrange(0, k as int) =~= items);
    Ok(out)
}

/// `insert into` statement whose text after the keywords is `cs[lo..hi]`.
fn insert_in(line: &str, cs: &Vec<char>, lo: usize, hi: usize) -> (r: Result<SqlStatement, ParserError>)
    requires
        cs@ == line@,
        lo <= hi <= cs@.len(),
    ensures
        result_view(r) == parse_insert(cs@.subrange(lo as int, hi as int)),
{
    let ghost rest = cs@.subrange(lo as int, hi as int);
    let kw = vec!['v', 'a', 'l', 'u', 'e', 's'];
    assert(kw@ =~= kw_values());
    match find_in(cs, lo, hi, &kw) {
        None => Err(ParserError::MissingValuesClauseError),
        Some(k) => {
            assert(rest.subrange(0, k - lo) =~= cs@.subrange(lo as int, k as int));
            assert(rest.subrange(k - lo + 6, rest.len() as int) =~= cs@.subrange(k + 6, hi as int));
            let (ta, tb) = trim_range(cs, lo, k);
            let (la, lb) = trim_range(cs, k + 6, hi);
            if ta == tb {
                return Err(ParserError::MissingTableNameError { statement: keyword_insert() });
            }
            match paren_ranges(cs, la, lb) {
                None => Err(ParserError::MalformedValueListError { text: string_of(line, la, lb) }),
                Some(v) => Ok(SqlStatement::Insert { table: string_of(line, ta, tb), values: strings_of(line, &v) }),
            }
        },
    }
}

/// `select` statement whose text after the keyword is `cs[lo..hi]`.
fn select_in(line: &str, cs: &Vec<char>, lo: usize, hi: usize) -> (r: Result<SqlStatement, ParserError>)
    requires
        cs@ == line@,
        lo <= hi <= cs@.len(),
    ensures
        result_view(r) == parse_select(cs@.subrange(lo as int, hi as int)),
{
    let ghost rest = cs@.subrange(lo as int, hi as int);
    let kw = vec!['f', 'r', 'o', 'm'];
    assert(kw@ =~= kw_from());
    match find_in(cs, lo, hi, &kw) {
        None => Err(ParserError::MissingTableNameError { statement: keyword_select() }),
        Some(k) => {
            assert(rest.subrange(0, k - lo) =~= cs@.subrange(lo as int, k as int));
            assert(rest.subrange(k - lo + 4, rest.len() as int) =~= cs@.subrange(k + 4, hi as int));
            let (ta, tb) = trim_range(cs, k + 4, hi);
            let (ca, cb) = trim_range(cs, lo, k);
            if ta == tb {
                return Err(ParserError::MissingTableNameError { statement: keyword_select() });
            }
            let star = vec!['*'];
            assert(star@ =~= seq!['*']);
            if ca == cb || range_is(cs, ca, cb, &star) {
                assert(strings_view(Seq::<String>::empty()) =~= Seq::<Seq<char>>::empty());
                return Ok(SqlStatement::Select { table: string_of(line, ta, tb), columns: Vec::new() });
            }
            match list_ranges(cs, ca, cb) {
                None => Err(ParserError::MalformedColumnListError { text: string_of(line, ca, cb) }),
                Some(v) => Ok(SqlStatement::Select { table: string_of(line, ta, tb), columns: strings_of(line, &v) }),
            }
        },
    }
}

/// `drop table` statement whose text after the keywords is `cs[lo..hi]`.
fn drop_in(line: &str, cs: &Vec<char>, lo: usize, hi: usize) -> (r: Result<SqlStatement, ParserError>)
    requires
        cs@ == line@,
        lo <= hi <= cs@.len(),
    ensures
        result_view(r) == parse_drop(cs@.subrange(lo as int, hi as int)),
{
    let (a, b) = trim_range(cs, lo, hi);
    if a == b {
        Err(ParserError::MissingTableNameError { statement: keyword_drop() })
    } else {
        Ok(SqlStatement::Drop { table: string_of(line, a, b) })
    }
}

/// `create table` statement whose text after the keywords is `cs[lo..hi]`.
fn create_in(line: &str, cs: &Vec<char>, lo: usize, hi: usize) -> (r: Result<SqlStatement, ParserError>)
    requires
        cs@ == line@,
        lo <= hi <= cs@.len(),
    ensures
        result_view(r) == parse_create(cs@.subrange(lo as int, hi as int)),
{
    let ghost rest = cs@.subrange(lo as int, hi as int);
    let paren = vec!['('];
    assert(paren@ =~= seq!['(']);
    match find_in(cs, lo, hi, &paren) {
        None => {
            let (a, b) = trim_range(cs, lo, hi);
            Err(ParserError::MalformedColumnListError { text: string_of(line, a, b) })
        },
        Some(k) => {
            assert(rest.subrange(0, k - lo) =~= cs@.subrange(lo as int, k as int));
            assert(rest.subrange(k - lo, rest.len() as int) =~= cs@.subrange(k as int, hi as int));
            let (na, nb) = trim_range(cs, lo, k);
            let (la, lb) = trim_range(cs, k, hi);
            if na == nb {
                return Err(ParserError::MissingTableNameError { statement: keyword_create_table() });
            }
            match paren_ranges(cs, la, lb) {
                None => Err(ParserError::MalformedColumnListError { text: string_of(line, la, lb) }),
                Some(v) => match column_defs_in(line, cs, &v) {
                    Err(e) => Err(e),
                    Ok(columns) => Ok(SqlStatement::CreateTable { name: string_of(line, na, nb), columns }),
                },
            }
        },
    }
}

/// Parses one statement of lower-case text, chosen by its leading keyword.
pub fn parse_lowercase_line(line: &str) -> (r: Result<SqlStatement, ParserError>)
    ensures
        result_view(r) == parse_statement(line@),
{
    let cs = chars_of(line);
    let n = cs.len();
    assert(cs@.subrange(0, n as int) =~= cs@);
    let insert_into = vec!['i', 'n', 's', 'e', 'r', 't', ' ', 'i', 'n', 't', 'o'];
    let select = vec!['s', 'e', 'l', 'e', 'c', 't'];
    let drop_table = vec!['d', 'r', 'o', 'p', ' ', 't', 'a', 'b', 'l', 'e'];
    let create_table = vec!['c', 'r', 'e', 'a', 't', 'e', ' ', 't', 'a', 'b', 'l', 'e'];
    assert(insert_into@ =~= kw_insert_into());
    assert(select@ =~= kw_select());
    assert(drop_table@ =~= kw_drop_table());
    assert(create_table@ =~= kw_create_table());
    if range_starts_with(&cs, 0, n, &insert_into) {
        insert_in(line, &cs, 11, n)
    } else if range_starts_with(&cs, 0, n, &select) {
        select_in(line, &cs, 6, n)
    } else if range_starts_with(&cs, 0, n, &drop_table) {
        drop_in(line, &cs, 10, n)
    } else if range_starts_with(&cs, 0, n, &create_table) {
        create_in(line, &cs, 12, n)
    } else {
        Err(ParserError::UnknownStatementError { statement: line.to_owned() })
    }
}

/// Relies on `itertools::Itertools::partition_result`: the `Ok` values and the
/// `Err` values, each in the order of the input.
#[verifier::external_body]
fn partition_results<T, E>(rs: Vec<Result<T, E>>) -> (r: (Vec<T>, Vec<E>))
    ensures
        r.0@ == oks_of(rs@),
        r.1@ == errs_of(rs@),
{
    rs.into_iter().partition_result()
}

proof fn lemma_partition_view(rs: Seq<Result<SqlStatement, ParserError>>)
    ensures
        statements_view(oks_of(rs)) == oks_of(rs.map_values(|r: Result<SqlStatement, ParserError>| result_view(r))),
        errs_of(rs).map_values(|e: ParserError| e@) == errs_of(rs.map_values(|r: Result<SqlStatement, ParserError>| result_view(r))),
    decreases rs.len(),
{
    let f = |r: Result<SqlStatement, ParserError>| result_view(r);
    if rs.len() == 0 {
        assert(statements_view(oks_of(rs)) =~= Seq::<StatementModel>::empty());
        assert(errs_of(rs).map_values(|e: ParserError| e@) =~= Seq::<ParseErrorModel>::empty());
    } else {
        lemma_partition_view(rs.drop_last());
        assert(rs.map_values(f).drop_last() =~= rs.drop_last().map_values(f));
        assert(statements_view(oks_of(rs)) =~= oks_of(rs.map_values(f)));
        assert(errs_of(rs).map_values(|e: ParserError| e@) =~= errs_of(rs.map_values(f)));
    }
}

impl Sql {
    /// Parses a batch of lower-case text: every non-blank `;`-separated statement,
    /// or the error of the first one that fails.
    pub fn parse_lowered(text: &str) -> (r: Result<Sql, ParserError>)
        ensures
            result_view(r) == parse_batch(text@),
    {
        let cs = chars_of(text);
        let n = cs.len();
        assert(cs@.subrange(0, n as int) =~= cs@);
        let rs = split_ranges(&cs, 0, n, ';');
        let ghost ps = pieces(text@, ';');
        let ghost f = |r: Result<SqlStatement, ParserError>| result_view(r);
        let mut results: Vec<Result<SqlStatement, ParserError>> = Vec::new();
        let mut k: usize = 0;
        assert(ps.subrange(0, 0) =~= Seq::<Seq<char>>::empty());
        assert(results@.map_values(f) =~= Seq::<Result<StatementModel, ParseErrorModel>>::empty());
        while k < rs.len()
            invariant
                cs@ == text@,
                n == cs@.len(),
                ps == pieces(text@, ';'),
                rs@.len() == ps.len(),
                forall|j: int| 0 <= j < rs@.len() ==> 0 <= (#[trigger] rs@[j]).0 <= rs@[j].1 <= n
                    && cs@.subrange(rs@[j].0 as int, rs@[j].1 as int) == ps[j],
                k <= rs@.len(),
                f == (|r: Result<SqlStatement, ParserError>| result_view(r)),
                results@.map_values(f) == bodies(ps.subrange(0, k as int)).map_values(|b: Seq<char>| parse_statement(b)),
            decreases rs@.len() - k,
        {
            let (p, q) = rs[k];
            let (a, b) = trim_range(&cs, p, q);
            assert(ps.subrange(0, k + 1).drop_last() =~= ps.subrange(0, k as int));
            if a < b {
                let ghost prev = results@;
                let st = parse_lowercase_line(text.substring_char(a, b));
                results.push(st);
                assert(results@.map_values(f) =~= prev.map_values(f).push(f(st)));
            }
            k = k + 1;
        }
        assert(ps.subrange(0, k as int) =~= ps);
        proof {
            lemma_partition_view(results@);
        }
        let (oks, mut errs) = partition_results(results);
        if errs.len() > 0 {
            assert(errs@.map_values(|e: ParserError| e@)[0] == errs@[0]@);
            Err(errs.remove(0))
        } else {
            assert(errs@.map_values(|e: ParserError| e@).len() == 0);
            Ok(Sql { statements: oks })
        }
    }

    /// Parses a batch of text: the text is lower-cased first, so keywords and
    /// names are matched without regard to case.
    pub fn parse(text: &str) -> (r: Result<Sql, ParserError>)
        ensures
            result_view(r) == parse_batch(lower_of(text@)),
    {
        let lowered = lowercase(text);
        Sql::parse_lowered(lowered.as_str())
    }
}

} // verus!
