//! The shared data vocabulary: typed scalar values, columns, rows, tables,
//! the statement AST, predicates, execution responses and the error taxonomy.
//!
//! Each executable type has a mathematical view (`...V`) over `Seq`, `int`
//! and plain enums; all contracts in this crate speak of those views.

use vstd::prelude::*;

verus! {

/// A column's declared type. `Unknown` means the type tag read from
/// storage matched neither `String` nor `Int`; it is never a valid
/// declaration target of a CREATE statement.
#[derive(Debug, Clone, Copy, PartialEq, Eq, Structural)]
pub enum SqlType {
    String,
    Int,
    Unknown,
}

/// A column's name and declared type.
#[derive(Debug, PartialEq, Eq)]
pub struct Column {
    pub name: String,
    pub type_info: SqlType,
}

/// Mathematical view of a [`Column`].
pub struct ColumnV {
    pub name: Seq<char>,
    pub type_info: SqlType,
}

impl View for Column {
    type V = ColumnV;

    open spec fn view(&self) -> ColumnV {
        ColumnV { name: self.name@, type_info: self.type_info }
    }
}

/// A scalar value. `Unknown` is the sentinel produced when storage cannot
/// coerce a cell's text into the column's declared type; the statement
/// parser never produces it.
#[derive(Debug, PartialEq, Eq)]
pub enum SqlValue {
    String(String),
    Int(i32),
    Unknown,
}

/// Mathematical view of a [`SqlValue`].
pub enum ValueV {
    String(Seq<char>),
    Int(int),
    Unknown,
}

impl View for SqlValue {
    type V = ValueV;

    open spec fn view(&self) -> ValueV {
        match self {
            SqlValue::String(s) => ValueV::String(s@),
            SqlValue::Int(i) => ValueV::Int(*i as int),
            SqlValue::Unknown => ValueV::Unknown,
        }
    }
}

/// An ordered sequence of scalar values; one table row, or the VALUES
/// tuple of an INSERT statement.
#[derive(Debug, PartialEq, Eq)]
pub struct RowValue {
    pub values: Vec<SqlValue>,
}

impl View for RowValue {
    type V = Seq<ValueV>;

    open spec fn view(&self) -> Seq<ValueV> {
        self.values@.map_values(|v: SqlValue| v@)
    }
}

/// List of column info.
pub type ColumnInfo = Vec<Column>;

/// A data table: an ordered column list defining the schema, and the rows.
#[derive(Debug, PartialEq, Eq)]
pub struct SqlTable {
    /// Column info for all columns in the table.
    pub columns: ColumnInfo,
    /// The rows, in insertion order.
    pub rows: Vec<RowValue>,
}

/// Mathematical view of a [`SqlTable`].
pub struct TableV {
    pub columns: Seq<ColumnV>,
    pub rows: Seq<Seq<ValueV>>,
}

impl View for SqlTable {
    type V = TableV;

    open spec fn view(&self) -> TableV {
        TableV { columns: view_cols(self.columns@), rows: view_rows(self.rows@) }
    }
}


impl Clone for SqlValue {
    /// Cloning keeps the value.
    fn clone(&self) -> (r: Self)
        ensures
            r@ == self@,
    {
        match self {
            SqlValue::String(s) => SqlValue::String(s.clone()),
            SqlValue::Int(i) => SqlValue::Int(*i),
            SqlValue::Unknown => SqlValue::Unknown,
        }
    }
}

impl Clone for Column {
    /// Cloning keeps name and type.
    fn clone(&self) -> (r: Self)
        ensures
            r@ == self@,
    {
        Column { name: self.name.clone(), type_info: self.type_info }
    }
}

impl Clone for RowValue {
    /// Cloning keeps every cell.
    fn clone(&self) -> (r: Self)
        ensures
            r@ == self@,
    {
        let mut values: Vec<SqlValue> = Vec::new();
        let mut i: usize = 0;
        while i < self.values.len()
            invariant
                i <= self.values@.len(),
                values@.len() == i,
                forall|k: int| 0 <= k < i ==> values@[k]@ == self.values@[k]@,
            decreases self.values@.len() - i,
        {
            values.push(self.values[i].clone());
            i += 1;
        }
        let r = RowValue { values };
        proof {
            assert(r@ =~= self@);
        }
        r
    }
}


impl Clone for SqlTable {
    /// Cloning keeps schema and rows.
    fn clone(&self) -> (r: Self)
        ensures
            r@ == self@,
    {
        let mut columns: Vec<Column> = Vec::new();
        let mut i: usize = 0;
        while i < self.columns.len()
            invariant
                i <= self.columns@.len(),
                columns@.len() == i,
                forall|k: int| 0 <= k < i ==> columns@[k]@ == self.columns@[k]@,
            decreases self.columns@.len() - i,
        {
            columns.push(self.columns[i].clone());
            i += 1;
        }
        let mut rows: Vec<RowValue> = Vec::new();
        let mut j: usize = 0;
        while j < self.rows.len()
            invariant
                j <= self.rows@.len(),
                rows@.len() == j,
                forall|k: int| 0 <= k < j ==> rows@[k]@ == self.rows@[k]@,
            decreases self.rows@.len() - j,
        {
            rows.push(self.rows[j].clone());
            j += 1;
        }
        let r = SqlTable { columns, rows };
        proof {
            assert(r@.columns =~= self@.columns);
            assert(r@.rows =~= self@.rows);
        }
        r
    }
}

/// Does a stored value fit a column's declared type? An integer cell is
/// 32-bit signed; `Unknown` values are allowed wherever an `Int`
/// coercion may have failed, and are the only values an `Unknown` column
/// can hold.
pub open spec fn value_matches_type(v: ValueV, t: SqlType) -> bool {
    match t {
        SqlType::String => v is String,
        SqlType::Int => match v {
            ValueV::Int(i) => -2147483648 <= i <= 2147483647,
            ValueV::Unknown => true,
            ValueV::String(_) => false,
        },
        SqlType::Unknown => v is Unknown,
    }
}


/// The default value substituted for a column omitted from an explicit
/// INSERT column list: `"NULL"` for a `String` column, `0` for an `Int`
/// column, the `Unknown` sentinel otherwise.
pub open spec fn default_value(t: SqlType) -> ValueV {
    match t {
        SqlType::String => ValueV::String("NULL"@),
        SqlType::Int => ValueV::Int(0),
        SqlType::Unknown => ValueV::Unknown,
    }
}

/// A row is well formed for a schema when its arity equals the column
/// count and each value fits the declared type at its position.
pub open spec fn row_wf(r: Seq<ValueV>, cols: Seq<ColumnV>) -> bool {
    &&& r.len() == cols.len()
    &&& forall|j: int| 0 <= j < r.len() ==> value_matches_type(r[j], cols[j].type_info)
}

/// Table invariant: at least one column, and every row well formed.
pub open spec fn table_wf(t: TableV) -> bool {
    &&& t.columns.len() >= 1
    &&& forall|i: int| 0 <= i < t.rows.len() ==> row_wf(#[trigger] t.rows[i], t.columns)
}


/// View of a column vector's contents.
pub open spec fn view_cols(cs: Seq<Column>) -> Seq<ColumnV> {
    cs.map_values(|c: Column| c@)
}

/// View of a string vector's contents.
pub open spec fn view_strings(ss: Seq<String>) -> Seq<Seq<char>> {
    ss.map_values(|s: String| s@)
}

/// View of a row vector's contents.
pub open spec fn view_rows(rs: Seq<RowValue>) -> Seq<Seq<ValueV>> {
    rs.map_values(|r: RowValue| r@)
}

/// View of a SET-assignment vector's contents.
pub open spec fn view_sets(ss: Seq<SetItem>) -> Seq<SetItemV> {
    ss.map_values(|s: SetItem| s@)
}

/// The names of a column list, in order.
pub open spec fn col_names(cs: Seq<ColumnV>) -> Seq<Seq<char>> {
    cs.map_values(|c: ColumnV| c.name)
}

/// CREATE TABLE: the table name and its column definitions.
#[derive(Debug, Clone, PartialEq, Eq)]
pub struct CreateStatement {
    pub table: String,
    pub columns: Vec<Column>,
}

/// Mathematical view of a [`CreateStatement`].
pub struct CreateV {
    pub table: Seq<char>,
    pub columns: Seq<ColumnV>,
}

impl View for CreateStatement {
    type V = CreateV;

    open spec fn view(&self) -> CreateV {
        CreateV { table: self.table@, columns: view_cols(self.columns@) }
    }
}

/// DROP TABLE: the table name.
#[derive(Debug, Clone, PartialEq, Eq)]
pub struct DropStatement {
    pub table: String,
}

/// Mathematical view of a [`DropStatement`].
pub struct DropV {
    pub table: Seq<char>,
}

impl View for DropStatement {
    type V = DropV;

    open spec fn view(&self) -> DropV {
        DropV { table: self.table@ }
    }
}

/// INSERT INTO: the table name, an optional explicit target-column list,
/// and the VALUES tuple.
#[derive(Debug, Clone, PartialEq, Eq)]
pub struct InsertStatement {
    pub table: String,
    pub columns: Option<Vec<String>>,
    pub values: RowValue,
}

/// Mathematical view of an [`InsertStatement`].
pub struct InsertV {
    pub table: Seq<char>,
    pub columns: Option<Seq<Seq<char>>>,
    pub values: Seq<ValueV>,
}

impl View for InsertStatement {
    type V = InsertV;

    open spec fn view(&self) -> InsertV {
        InsertV {
            table: self.table@,
            columns: match &self.columns {
                Some(cs) => Some(view_strings(cs@)),
                None => None,
            },
            values: self.values@,
        }
    }
}

/// Comparison operators of a WHERE constraint leaf.
#[derive(Debug, Clone, Copy, PartialEq, Eq, Structural)]
pub enum CmpOpt {
    Eq,
    Ne,
    Lt,
    Le,
    Gt,
    Ge,
}

/// Boolean operators joining WHERE constraints.
#[derive(Debug, Clone, Copy, PartialEq, Eq, Structural)]
pub enum BoolOpt {
    And,
    Or,
    Not,
}

/// A WHERE predicate: a binary tree over leaf comparisons. `Not` only ever
/// wraps a single leaf constraint when produced by the parser; negating an
/// arbitrary sub-expression is a documented grammar limit.
#[derive(Debug, PartialEq, Eq)]
pub enum WhereConstraint {
    Bin(Box<WhereConstraint>, BoolOpt, Box<WhereConstraint>),
    Not(Box<WhereConstraint>),
    /// column, comparator, value
    Constrait(String, CmpOpt, SqlValue),
}

/// Mathematical view of a [`WhereConstraint`].
pub enum WhereV {
    Bin(Box<WhereV>, BoolOpt, Box<WhereV>),
    Not(Box<WhereV>),
    Constrait(Seq<char>, CmpOpt, ValueV),
}

impl View for WhereConstraint {
    type V = WhereV;

    open spec fn view(&self) -> WhereV
        decreases self,
    {
        match self {
            WhereConstraint::Bin(l, op, r) => WhereV::Bin(
                Box::new((**l)@),
                *op,
                Box::new((**r)@),
            ),
            WhereConstraint::Not(inner) => WhereV::Not(Box::new((**inner)@)),
            WhereConstraint::Constrait(c, op, v) => WhereV::Constrait(c@, *op, v@),
        }
    }
}

/// SELECT: the projection list (`"*"` is the wildcard), the table name,
/// and the optional WHERE predicate.
#[derive(Debug, PartialEq, Eq)]
pub struct SelectStatement {
    pub table: String,
    pub columns: Vec<String>,
    pub constraints: Option<WhereConstraint>,
}

/// Mathematical view of a [`SelectStatement`].
pub struct SelectV {
    pub table: Seq<char>,
    pub columns: Seq<Seq<char>>,
    pub constraints: Option<WhereV>,
}

impl View for SelectStatement {
    type V = SelectV;

    open spec fn view(&self) -> SelectV {
        SelectV {
            table: self.table@,
            columns: view_strings(self.columns@),
            constraints: match &self.constraints {
                Some(w) => Some(w@),
                None => None,
            },
        }
    }
}

/// One `column = value` assignment of an UPDATE statement.
#[derive(Debug, Clone, PartialEq, Eq)]
pub struct SetItem {
    pub column: String,
    pub value: SqlValue,
}

/// Mathematical view of a [`SetItem`].
pub struct SetItemV {
    pub column: Seq<char>,
    pub value: ValueV,
}

impl View for SetItem {
    type V = SetItemV;

    open spec fn view(&self) -> SetItemV {
        SetItemV { column: self.column@, value: self.value@ }
    }
}

/// UPDATE: the table name, the SET assignments, and the optional WHERE
/// predicate.
#[derive(Debug, PartialEq, Eq)]
pub struct UpdateStatement {
    pub table: String,
    pub sets: Vec<SetItem>,
    pub constraints: Option<WhereConstraint>,
}

/// Mathematical view of an [`UpdateStatement`].
pub struct UpdateV {
    pub table: Seq<char>,
    pub sets: Seq<SetItemV>,
    pub constraints: Option<WhereV>,
}

impl View for UpdateStatement {
    type V = UpdateV;

    open spec fn view(&self) -> UpdateV {
        UpdateV {
            table: self.table@,
            sets: view_sets(self.sets@),
            constraints: match &self.constraints {
                Some(w) => Some(w@),
                None => None,
            },
        }
    }
}

/// DELETE: the table name and the optional WHERE predicate.
#[derive(Debug, PartialEq, Eq)]
pub struct DeleteStatement {
    pub table: String,
    pub constraints: Option<WhereConstraint>,
}

/// Mathematical view of a [`DeleteStatement`].
pub struct DeleteV {
    pub table: Seq<char>,
    pub constraints: Option<WhereV>,
}

impl View for DeleteStatement {
    type V = DeleteV;

    open spec fn view(&self) -> DeleteV {
        DeleteV {
            table: self.table@,
            constraints: match &self.constraints {
                Some(w) => Some(w@),
                None => None,
            },
        }
    }
}

/// The six statement kinds: one parsed unit of work.
#[derive(Debug, PartialEq, Eq)]
pub enum SqlQuery {
    Select(SelectStatement),
    Insert(InsertStatement),
    Create(CreateStatement),
    Delete(DeleteStatement),
    Drop(DropStatement),
    Update(UpdateStatement),
}

/// Mathematical view of a [`SqlQuery`].
pub enum QueryV {
    Select(SelectV),
    Insert(InsertV),
    Create(CreateV),
    Delete(DeleteV),
    Drop(DropV),
    Update(UpdateV),
}

impl View for SqlQuery {
    type V = QueryV;

    open spec fn view(&self) -> QueryV {
        match self {
            SqlQuery::Select(s) => QueryV::Select(s@),
            SqlQuery::Insert(s) => QueryV::Insert(s@),
            SqlQuery::Create(s) => QueryV::Create(s@),
            SqlQuery::Delete(s) => QueryV::Delete(s@),
            SqlQuery::Drop(s) => QueryV::Drop(s@),
            SqlQuery::Update(s) => QueryV::Update(s@),
        }
    }
}

/// The sole success channel of execution: a status message, an affected
/// row count, or a materialized result table.
#[derive(Debug, Clone, PartialEq, Eq)]
pub enum ExecuteResponse {
    Message(String),
    Count(usize),
    View(Box<SqlTable>),
}

/// Mathematical view of an [`ExecuteResponse`].
pub enum ResponseV {
    Message(Seq<char>),
    Count(int),
    View(TableV),
}

impl View for ExecuteResponse {
    type V = ResponseV;

    open spec fn view(&self) -> ResponseV {
        match self {
            ExecuteResponse::Message(s) => ResponseV::Message(s@),
            ExecuteResponse::Count(n) => ResponseV::Count(*n as int),
            ExecuteResponse::View(t) => ResponseV::View((**t)@),
        }
    }
}

/// Errors during query execution. Each carries the offending table or
/// column name (or, for `TypeDoesNotMatch`, a description).
#[derive(Debug, Clone, PartialEq, Eq)]
pub enum QueryExecutionError {
    TableNotFound(String),
    TableAlreadyExists(String),
    ColumnDoesNotExist(String),
    TypeDoesNotMatch(String),
    TableDeletefail(String),
    TableSavefail(String),
    TableOpenfail(String),
}

/// Mathematical view of a [`QueryExecutionError`].
pub enum ExecErrorV {
    TableNotFound(Seq<char>),
    TableAlreadyExists(Seq<char>),
    ColumnDoesNotExist(Seq<char>),
    TypeDoesNotMatch(Seq<char>),
    TableDeletefail(Seq<char>),
    TableSavefail(Seq<char>),
    TableOpenfail(Seq<char>),
}

impl View for QueryExecutionError {
    type V = ExecErrorV;

    open spec fn view(&self) -> ExecErrorV {
        match self {
            QueryExecutionError::TableNotFound(s) => ExecErrorV::TableNotFound(s@),
            QueryExecutionError::TableAlreadyExists(s) => ExecErrorV::TableAlreadyExists(s@),
            QueryExecutionError::ColumnDoesNotExist(s) => ExecErrorV::ColumnDoesNotExist(s@),
            QueryExecutionError::TypeDoesNotMatch(s) => ExecErrorV::TypeDoesNotMatch(s@),
            QueryExecutionError::TableDeletefail(s) => ExecErrorV::TableDeletefail(s@),
            QueryExecutionError::TableSavefail(s) => ExecErrorV::TableSavefail(s@),
            QueryExecutionError::TableOpenfail(s) => ExecErrorV::TableOpenfail(s@),
        }
    }
}

} // verus!
