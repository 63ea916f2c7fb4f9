//! Statement execution.
//!
//! Execution is split from storage I/O: the caller attempts to load the
//! named table and hands the outcome in as a [`TableSource`]; each
//! statement's `check_and_execute` then decides, without further I/O,
//! whether the statement succeeds, what must be written back or removed
//! ([`StatementEffect`]), and what response to report. [`conclude`] turns
//! the outcome of the caller's write-back into the final result.
//!
//! No statement has a partial effect: an error outcome carries no
//! [`StatementEffect`], so the persisted table is untouched.

use vstd::prelude::*;
use vstd::string::StringExecFns;
use crate::ast::{
    Column, ColumnInfo, ColumnV, CreateStatement, DeleteStatement, DropStatement, ExecErrorV,
    ExecuteResponse, InsertStatement, QueryExecutionError, ResponseV, RowValue, SelectStatement,
    SetItem, SetItemV, SqlQuery, SqlTable, SqlType, SqlValue, TableV, UpdateStatement, ValueV,
    WhereConstraint, WhereV, col_names, default_value, value_matches_type, view_cols,
    view_rows, view_strings,
};
use crate::eval::{eval_where, name_index, spec_eval};

verus! {

/// What the caller's attempt to load the statement's table yielded:
/// no such table, a table that exists but could not be read, or the
/// loaded table.
#[derive(Debug)]
pub enum TableSource {
    Missing,
    Unreadable,
    Loaded(SqlTable),
}

/// Mathematical view of a [`TableSource`].
pub enum SourceV {
    Missing,
    Unreadable,
    Loaded(TableV),
}

impl View for TableSource {
    type V = SourceV;

    open spec fn view(&self) -> SourceV {
        match self {
            TableSource::Missing => SourceV::Missing,
            TableSource::Unreadable => SourceV::Unreadable,
            TableSource::Loaded(t) => SourceV::Loaded(t@),
        }
    }
}

/// What the caller must do to the persisted table on success: nothing,
/// write this table wholesale, or remove it.
#[derive(Debug)]
pub enum StatementEffect {
    NoChange,
    Write(SqlTable),
    Remove,
}

/// Mathematical view of a [`StatementEffect`].
pub enum EffectV {
    NoChange,
    Write(TableV),
    Remove,
}

impl View for StatementEffect {
    type V = EffectV;

    open spec fn view(&self) -> EffectV {
        match self {
            StatementEffect::NoChange => EffectV::NoChange,
            StatementEffect::Write(t) => EffectV::Write(t@),
            StatementEffect::Remove => EffectV::Remove,
        }
    }
}

/// A checked statement: which table it concerns, the storage effect the
/// caller must apply, and the response owed once that effect succeeded.
#[derive(Debug)]
pub struct Execution {
    pub table: String,
    pub effect: StatementEffect,
    pub response: ExecuteResponse,
}

/// Mathematical view of an [`Execution`].
pub struct ExecutionV {
    pub table: Seq<char>,
    pub effect: EffectV,
    pub response: ResponseV,
}

impl View for Execution {
    type V = ExecutionV;

    open spec fn view(&self) -> ExecutionV {
        ExecutionV { table: self.table@, effect: self.effect@, response: self.response@ }
    }
}

/// The status message reported after a table was saved.
pub open spec fn msg_save(name: Seq<char>) -> Seq<char> {
    "save "@ + name + " successful"@
}

/// The status message reported after a table was deleted.
pub open spec fn msg_delete(name: Seq<char>) -> Seq<char> {
    "delete "@ + name + " successful"@
}

fn save_message(name: &String) -> (r: String)
    ensures
        r@ == msg_save(name@),
{
    let mut m = String::from_str("save ");
    m.append(name.as_str());
    m.append(" successful");
    m
}

fn delete_message(name: &String) -> (r: String)
    ensures
        r@ == msg_delete(name@),
{
    let mut m = String::from_str("delete ");
    m.append(name.as_str());
    m.append(" successful");
    m
}

/// The first name of `names` that is not a column name of `cols`, if any.
pub open spec fn spec_compare_name(names: Seq<Seq<char>>, cols: Seq<ColumnV>) -> Option<Seq<char>>
    decreases names.len(),
{
    if names.len() == 0 {
        None
    } else if name_index(col_names(cols), names[0]) is None {
        Some(names[0])
    } else {
        spec_compare_name(names.drop_first(), cols)
    }
}

/// Unrolling [`spec_compare_name`] past a prefix of known names.
pub proof fn lemma_compare_name_skip(names: Seq<Seq<char>>, cols: Seq<ColumnV>, i: int)
    requires
        0 <= i <= names.len(),
        forall|k: int| 0 <= k < i ==> name_index(col_names(cols), #[trigger] names[k]) is Some,
    ensures
        spec_compare_name(names, cols) == spec_compare_name(names.skip(i), cols),
    decreases i,
{
    if i > 0 {
        lemma_compare_name_skip(names.drop_first(), cols, i - 1);
        assert(names.drop_first().skip(i - 1) =~= names.skip(i));
    } else {
        assert(names.skip(0) =~= names);
    }
}

/// `spec_compare_name` finds nothing exactly when every name is a
/// column name.
pub proof fn lemma_compare_name_none(names: Seq<Seq<char>>, cols: Seq<ColumnV>)
    ensures
        spec_compare_name(names, cols) is None <==> forall|k: int|
            0 <= k < names.len() ==> name_index(col_names(cols), #[trigger] names[k]) is Some,
    decreases names.len(),
{
    if names.len() > 0 {
        let d = names.drop_first();
        lemma_compare_name_none(d, cols);
        if name_index(col_names(cols), names[0]) is Some && spec_compare_name(d, cols) is None {
            assert forall|k: int| 0 <= k < names.len() implies name_index(
                col_names(cols),
                #[trigger] names[k],
            ) is Some by {
                if k > 0 {
                    assert(names[k] == d[k - 1]);
                }
            }
        }
        if spec_compare_name(names, cols) is Some {
            assert(!(forall|k: int|
                0 <= k < names.len() ==> name_index(col_names(cols), #[trigger] names[k])
                    is Some)) by {
                if name_index(col_names(cols), names[0]) is Some {
                    let j = choose|j: int|
                        0 <= j < d.len() && !(name_index(col_names(cols), #[trigger] d[j])
                            is Some);
                    assert(names[j + 1] == d[j]);
                }
            }
        }
    }
}

/// Row reconciliation (the mapping itself, assuming the names check out):
/// each table column takes the value paired with it in the explicit
/// column list, or a type-appropriate default where the list omits it.
pub open spec fn spec_reconcile_row(
    names: Seq<Seq<char>>,
    values: Seq<ValueV>,
    cols: Seq<ColumnV>,
) -> Seq<ValueV> {
    Seq::new(
        cols.len(),
        |i: int|
            match name_index(names, cols[i].name) {
                Some(j) => values[j],
                None => default_value(cols[i].type_info),
            },
    )
}

/// Full row reconciliation: rejects the first explicit name that is not
/// a column of the table (`ColumnDoesNotExist`), then a VALUES tuple
/// whose arity differs from the explicit list (`TypeDoesNotMatch`), and
/// otherwise builds the reconciled row.
pub open spec fn spec_reconcile(
    names: Seq<Seq<char>>,
    values: Seq<ValueV>,
    cols: Seq<ColumnV>,
) -> Result<Seq<ValueV>, ExecErrorV> {
    match spec_compare_name(names, cols) {
        Some(nm) => Err(ExecErrorV::ColumnDoesNotExist(nm)),
        None => if names.len() != values.len() {
            Err(ExecErrorV::TypeDoesNotMatch("values"@))
        } else {
            Ok(spec_reconcile_row(names, values, cols))
        },
    }
}

/// The first name of the insert list that is not a column of the table.
pub fn compare_name(names_insert: &Vec<String>, columns: &Vec<Column>) -> (r: Option<String>)
    ensures
        match r {
            Some(s) => spec_compare_name(view_strings(names_insert@), view_cols(columns@))
                == Some(s@),
            None => spec_compare_name(view_strings(names_insert@), view_cols(columns@)) is None,
        },
{
    let ghost names = view_strings(names_insert@);
    let ghost colsv = view_cols(columns@);
    let n = names_insert.len();
    let mut i: usize = 0;
    while i < n
        invariant
            i <= n,
            n == names_insert@.len(),
            names == view_strings(names_insert@),
            colsv == view_cols(columns@),
            names.len() == n,
            forall|k: int| 0 <= k < i ==> name_index(col_names(colsv), #[trigger] names[k]) is Some,
        decreases n - i,
    {
        match crate::eval::find_column(columns, &names_insert[i]) {
            Some(_) => {
                proof {
                    assert(names[i as int] == names_insert@[i as int]@);
                }
                i += 1;
            },
            None => {
                proof {
                    lemma_compare_name_skip(names, colsv, i as int);
                    assert(names.skip(i as int)[0] == names[i as int]);
                    assert(names[i as int] == names_insert@[i as int]@);
                }
                return Some(names_insert[i].clone());
            },
        }
    }
    proof {
        lemma_compare_name_skip(names, colsv, n as int);
        assert(names.skip(n as int) =~= Seq::<Seq<char>>::empty());
    }
    None
}

/// Build the row to insert from an explicit column list: exactly
/// [`spec_reconcile`].
pub fn get_newrol(names_insert: Vec<String>, columns: &Vec<Column>, value: RowValue) -> (r: Result<
    RowValue,
    QueryExecutionError,
>)
    ensures
        match r {
            Ok(row) => spec_reconcile(
                view_strings(names_insert@),
                value@,
                view_cols(columns@),
            ) == Ok::<Seq<ValueV>, ExecErrorV>(row@),
            Err(e) => spec_reconcile(view_strings(names_insert@), value@, view_cols(columns@))
                == Err::<Seq<ValueV>, ExecErrorV>(e@),
        },
{
    let ghost names = view_strings(names_insert@);
    let ghost colsv = view_cols(columns@);
    match compare_name(&names_insert, columns) {
        Some(name_insert) => {
            return Err(QueryExecutionError::ColumnDoesNotExist(name_insert));
        },
        None => {},
    }
    if names_insert.len() != value.values.len() {
        return Err(QueryExecutionError::TypeDoesNotMatch(String::from_str("values")));
    }
    let mut row_values: Vec<SqlValue> = Vec::new();
    let n = columns.len();
    let mut i: usize = 0;
    while i < n
        invariant
            i <= n,
            n == columns@.len(),
            names == view_strings(names_insert@),
            colsv == view_cols(columns@),
            names.len() == value.values@.len(),
            value@.len() == value.values@.len(),
            row_values@.len() == i,
            forall|k: int|
                0 <= k < i ==> row_values@[k]@ == spec_reconcile_row(names, value@, colsv)[k],
        decreases n - i,
    {
        match crate::eval::find_name(&names_insert, &columns[i].name) {
            Some(j) => {
                proof {
                    assert(colsv[i as int].name == columns@[i as int]@.name);
                    assert(value@[j as int] == value.values@[j as int]@);
                }
                row_values.push(value.values[j].clone());
            },
            None => {
                proof {
                    assert(colsv[i as int].name == columns@[i as int]@.name);
                }
                match columns[i].type_info {
                    SqlType::String => row_values.push(
                        SqlValue::String(String::from_str("NULL")),
                    ),
                    SqlType::Int => row_values.push(SqlValue::Int(0)),
                    SqlType::Unknown => row_values.push(SqlValue::Unknown),
                }
            },
        }
        i += 1;
    }
    let rowvalues = RowValue { values: row_values };
    proof {
        assert(rowvalues@ =~= spec_reconcile_row(names, value@, colsv));
    }
    Ok(rowvalues)
}

impl SqlTable {
    /// Create a new, empty table over the given columns.
    pub fn new(columns: ColumnInfo) -> (r: SqlTable)
        ensures
            r@.columns == view_cols(columns@),
            r@.rows == Seq::<Seq<ValueV>>::empty(),
    {
        let r = Self { columns, rows: Vec::new() };
        proof {
            assert(r@.rows =~= Seq::<Seq<ValueV>>::empty());
        }
        r
    }
}

/// CREATE: refused with `TableAlreadyExists` when storage already holds
/// the name; otherwise an empty table with the given columns is written
/// and a save message reported.
pub open spec fn spec_execute_create(s: crate::ast::CreateV, src: SourceV) -> Result<
    ExecutionV,
    ExecErrorV,
> {
    match src {
        SourceV::Missing => Ok(
            ExecutionV {
                table: s.table,
                effect: EffectV::Write(TableV { columns: s.columns, rows: Seq::empty() }),
                response: ResponseV::Message(msg_save(s.table)),
            },
        ),
        _ => Err(ExecErrorV::TableAlreadyExists(s.table)),
    }
}

/// DROP: `TableNotFound` when the table does not exist; otherwise the
/// persisted table is removed and a delete message reported.
pub open spec fn spec_execute_drop(s: crate::ast::DropV, src: SourceV) -> Result<
    ExecutionV,
    ExecErrorV,
> {
    match src {
        SourceV::Missing => Err(ExecErrorV::TableNotFound(s.table)),
        _ => Ok(
            ExecutionV {
                table: s.table,
                effect: EffectV::Remove,
                response: ResponseV::Message(msg_delete(s.table)),
            },
        ),
    }
}

/// INSERT: `TableNotFound` / `TableOpenfail` when the table is missing or
/// unreadable. With an explicit column list the row is reconciled by
/// [`spec_reconcile`]; without one the VALUES tuple must have one value
/// per table column (`TypeDoesNotMatch` otherwise) and is taken verbatim.
/// The row is appended and the table written back.
pub open spec fn spec_execute_insert(s: crate::ast::InsertV, src: SourceV) -> Result<
    ExecutionV,
    ExecErrorV,
> {
    match src {
        SourceV::Missing => Err(ExecErrorV::TableNotFound(s.table)),
        SourceV::Unreadable => Err(ExecErrorV::TableOpenfail(s.table)),
        SourceV::Loaded(t) => {
            let appended = match s.columns {
                Some(names) => spec_reconcile(names, s.values, t.columns),
                None => if s.values.len() != t.columns.len() {
                    Err(ExecErrorV::TypeDoesNotMatch("values"@))
                } else {
                    Ok(s.values)
                },
            };
            match appended {
                Err(e) => Err(e),
                Ok(row) => Ok(
                    ExecutionV {
                        table: s.table,
                        effect: EffectV::Write(
                            TableV { columns: t.columns, rows: t.rows.push(row) },
                        ),
                        response: ResponseV::Message(msg_save(s.table)),
                    },
                ),
            }
        },
    }
}

impl CreateStatement {
    /// Check and run a CREATE against the load outcome of its table:
    /// exactly [`spec_execute_create`].
    pub fn check_and_execute(self, source: TableSource) -> (r: Result<
        Execution,
        QueryExecutionError,
    >)
        ensures
            match r {
                Ok(ex) => spec_execute_create(self@, source@) == Ok::<ExecutionV, ExecErrorV>(ex@),
                Err(e) => spec_execute_create(self@, source@) == Err::<ExecutionV, ExecErrorV>(e@),
            },
    {
        match source {
            TableSource::Missing => {
                let msg = save_message(&self.table);
                let table = SqlTable::new(self.columns);
                proof {
                    assert(table@ == (TableV { columns: self@.columns, rows: Seq::empty() }));
                }
                Ok(
                    Execution {
                        table: self.table,
                        effect: StatementEffect::Write(table),
                        response: ExecuteResponse::Message(msg),
                    },
                )
            },
            _ => Err(QueryExecutionError::TableAlreadyExists(self.table)),
        }
    }
}

impl DropStatement {
    /// Check and run a DROP against the load outcome of its table:
    /// exactly [`spec_execute_drop`].
    pub fn check_and_execute(self, source: TableSource) -> (r: Result<
        Execution,
        QueryExecutionError,
    >)
        ensures
            match r {
                Ok(ex) => spec_execute_drop(self@, source@) == Ok::<ExecutionV, ExecErrorV>(ex@),
                Err(e) => spec_execute_drop(self@, source@) == Err::<ExecutionV, ExecErrorV>(e@),
            },
    {
        match source {
            TableSource::Missing => Err(QueryExecutionError::TableNotFound(self.table)),
            _ => {
                let msg = delete_message(&self.table);
                Ok(
                    Execution {
                        table: self.table,
                        effect: StatementEffect::Remove,
                        response: ExecuteResponse::Message(msg),
                    },
                )
            },
        }
    }
}

impl InsertStatement {
    /// Check and run an INSERT against the load outcome of its table:
    /// exactly [`spec_execute_insert`].
    pub fn check_and_execute(self, source: TableSource) -> (r: Result<
        Execution,
        QueryExecutionError,
    >)
        ensures
            match r {
                Ok(ex) => spec_execute_insert(self@, source@) == Ok::<ExecutionV, ExecErrorV>(ex@),
                Err(e) => spec_execute_insert(self@, source@) == Err::<ExecutionV, ExecErrorV>(e@),
            },
    {
        match source {
            TableSource::Missing => Err(QueryExecutionError::TableNotFound(self.table)),
            TableSource::Unreadable => Err(QueryExecutionError::TableOpenfail(self.table)),
            TableSource::Loaded(t) => {
                let SqlTable { columns, mut rows } = t;
                let row = match self.columns {
                    Some(names) => {
                        match get_newrol(names, &columns, self.values) {
                            Ok(rowvalue) => rowvalue,
                            Err(err) => {
                                return Err(err);
                            },
                        }
                    },
                    None => {
                        if self.values.values.len() != columns.len() {
                            return Err(
                                QueryExecutionError::TypeDoesNotMatch(String::from_str("values")),
                            );
                        }
                        self.values
                    },
                };
                let ghost rows0 = crate::ast::view_rows(rows@);
                let ghost rowv = row@;
                rows.push(row);
                let new_table = SqlTable { columns, rows };
                let msg = save_message(&self.table);
                proof {
                    assert(new_table@.rows =~= rows0.push(rowv));
                }
                Ok(
                    Execution {
                        table: self.table,
                        effect: StatementEffect::Write(new_table),
                        response: ExecuteResponse::Message(msg),
                    },
                )
            },
        }
    }
}

/// How the caller reports the write-back: `true` when the effect was
/// applied to storage, `false` when it failed.
///
/// On failure a pending write becomes `TableSavefail`, a pending removal
/// `TableDeletefail`; a statement without effect cannot fail and keeps
/// its response.
pub open spec fn spec_conclude(ex: ExecutionV, applied: bool) -> Result<ResponseV, ExecErrorV> {
    if applied {
        Ok(ex.response)
    } else {
        match ex.effect {
            EffectV::Write(_) => Err(ExecErrorV::TableSavefail(ex.table)),
            EffectV::Remove => Err(ExecErrorV::TableDeletefail(ex.table)),
            EffectV::NoChange => Ok(ex.response),
        }
    }
}

/// Turn a checked statement plus the write-back outcome into the final
/// result: exactly [`spec_conclude`].
pub fn conclude(ex: Execution, applied: bool) -> (r: Result<ExecuteResponse, QueryExecutionError>)
    ensures
        match r {
            Ok(resp) => spec_conclude(ex@, applied) == Ok::<ResponseV, ExecErrorV>(resp@),
            Err(e) => spec_conclude(ex@, applied) == Err::<ResponseV, ExecErrorV>(e@),
        },
{
    if applied {
        Ok(ex.response)
    } else {
        match ex.effect {
            StatementEffect::Write(_) => Err(QueryExecutionError::TableSavefail(ex.table)),
            StatementEffect::Remove => Err(QueryExecutionError::TableDeletefail(ex.table)),
            StatementEffect::NoChange => Ok(ex.response),
        }
    }
}

/// Law: inserting with an explicit column list whose names all exist in
/// the schema and match the VALUES arity reconciles successfully; each
/// column takes the value its name is paired with, and a column omitted
/// from the list takes its type's default (`"NULL"` for `String`, `0`
/// for `Int`, `Unknown` otherwise). In particular, for a permutation of
/// the schema's columns every column finds its name and no default is
/// used: the row equals the values put into schema order.
pub proof fn lemma_insert_reconciliation(
    names: Seq<Seq<char>>,
    values: Seq<ValueV>,
    cols: Seq<ColumnV>,
)
    requires
        names.len() == values.len(),
        forall|k: int| 0 <= k < names.len() ==> name_index(col_names(cols), #[trigger] names[k])
            is Some,
    ensures
        spec_reconcile(names, values, cols) == Ok::<Seq<ValueV>, ExecErrorV>(
            spec_reconcile_row(names, values, cols),
        ),
        forall|i: int| 0 <= i < cols.len() ==> #[trigger] spec_reconcile_row(names, values, cols)[i]
            == match name_index(names, cols[i].name) {
                Some(j) => values[j],
                None => default_value(cols[i].type_info),
            },
{
    lemma_compare_name_none(names, cols);
}

/// Law: inserting with any explicit name not present in the schema fails
/// with `ColumnDoesNotExist` naming the first such name — and, as an
/// error outcome, carries no storage effect, so the persisted table is
/// unchanged.
pub proof fn lemma_unknown_column_rejection(
    s: crate::ast::InsertV,
    t: TableV,
    names: Seq<Seq<char>>,
    nm: Seq<char>,
)
    requires
        s.columns == Some(names),
        spec_compare_name(names, t.columns) == Some(nm),
    ensures
        spec_execute_insert(s, SourceV::Loaded(t)) == Err::<ExecutionV, ExecErrorV>(
            ExecErrorV::ColumnDoesNotExist(nm),
        ),
{
}


/// Does one row pass the (optional) WHERE predicate? An absent predicate
/// passes every row.
pub open spec fn row_passes(w: Option<WhereV>, cols: Seq<ColumnV>, row: Seq<ValueV>) -> Result<
    bool,
    ExecErrorV,
> {
    match w {
        None => Ok(true),
        Some(w0) => spec_eval(w0, cols, row),
    }
}

/// The error of the first row, in order, on which the predicate fails to
/// evaluate, if any.
pub open spec fn first_filter_err(
    w: Option<WhereV>,
    cols: Seq<ColumnV>,
    rows: Seq<Seq<ValueV>>,
) -> Option<ExecErrorV>
    decreases rows.len(),
{
    if rows.len() == 0 {
        None
    } else {
        match row_passes(w, cols, rows[0]) {
            Err(e) => Some(e),
            Ok(_) => first_filter_err(w, cols, rows.drop_first()),
        }
    }
}

/// Unrolling [`first_filter_err`] past a prefix of rows that evaluate.
pub proof fn lemma_filter_err_skip(
    w: Option<WhereV>,
    cols: Seq<ColumnV>,
    rows: Seq<Seq<ValueV>>,
    i: int,
)
    requires
        0 <= i <= rows.len(),
        forall|k: int| 0 <= k < i ==> row_passes(w, cols, #[trigger] rows[k]) is Ok,
    ensures
        first_filter_err(w, cols, rows) == first_filter_err(w, cols, rows.skip(i)),
    decreases i,
{
    if i > 0 {
        lemma_filter_err_skip(w, cols, rows.drop_first(), i - 1);
        assert(rows.drop_first().skip(i - 1) =~= rows.skip(i));
    } else {
        assert(rows.skip(0) =~= rows);
    }
}

/// The rows whose predicate result is `Ok(keep)`, in order.
pub open spec fn rows_passing(
    w: Option<WhereV>,
    cols: Seq<ColumnV>,
    rows: Seq<Seq<ValueV>>,
    keep: bool,
) -> Seq<Seq<ValueV>>
    decreases rows.len(),
{
    if rows.len() == 0 {
        Seq::empty()
    } else {
        let prev = rows_passing(w, cols, rows.drop_last(), keep);
        if row_passes(w, cols, rows.last()) == Ok::<bool, ExecErrorV>(keep) {
            prev.push(rows.last())
        } else {
            prev
        }
    }
}

/// No more rows pass than there are.
pub proof fn lemma_rows_passing_len(
    w: Option<WhereV>,
    cols: Seq<ColumnV>,
    rows: Seq<Seq<ValueV>>,
    keep: bool,
)
    ensures
        rows_passing(w, cols, rows, keep).len() <= rows.len(),
    decreases rows.len(),
{
    if rows.len() > 0 {
        lemma_rows_passing_len(w, cols, rows.drop_last(), keep);
    }
}

/// View of an optional WHERE predicate.
pub open spec fn view_where(w: Option<WhereConstraint>) -> Option<WhereV> {
    match w {
        Some(x) => Some(x@),
        None => None,
    }
}

/// Collect the rows whose predicate result is `Ok(keep)`; the first row
/// on which the predicate fails to evaluate aborts with its error.
fn filter_rows(
    constraints: &Option<WhereConstraint>,
    cols: &Vec<Column>,
    rows: &Vec<RowValue>,
    keep: bool,
) -> (r: Result<Vec<RowValue>, QueryExecutionError>)
    ensures
        match r {
            Ok(kept) => first_filter_err(view_where(*constraints), view_cols(cols@), view_rows(rows@))
                is None && view_rows(kept@) == rows_passing(
                view_where(*constraints),
                view_cols(cols@),
                view_rows(rows@),
                keep,
            ) && kept@.len() <= rows@.len(),
            Err(e) => first_filter_err(view_where(*constraints), view_cols(cols@), view_rows(rows@))
                == Some(e@),
        },
{
    let ghost w = view_where(*constraints);
    let ghost colsv = view_cols(cols@);
    let ghost rowsv = view_rows(rows@);
    let mut kept: Vec<RowValue> = Vec::new();
    let n = rows.len();
    let mut i: usize = 0;
    proof {
        assert(rowsv.subrange(0, 0) =~= Seq::<Seq<ValueV>>::empty());
    }
    while i < n
        invariant
            i <= n,
            n == rows@.len(),
            w == view_where(*constraints),
            colsv == view_cols(cols@),
            rowsv == view_rows(rows@),
            rowsv.len() == n,
            forall|k: int| 0 <= k < i ==> row_passes(w, colsv, #[trigger] rowsv[k]) is Ok,
            view_rows(kept@) == rows_passing(w, colsv, rowsv.subrange(0, i as int), keep),
            kept@.len() <= i,
        decreases n - i,
    {
        let pass = match constraints {
            None => true,
            Some(wc) => {
                match eval_where(wc, cols, &rows[i]) {
                    Ok(b) => b,
                    Err(e) => {
                        proof {
                            assert(rowsv[i as int] == rows@[i as int]@);
                            lemma_filter_err_skip(w, colsv, rowsv, i as int);
                            assert(rowsv.skip(i as int)[0] == rowsv[i as int]);
                        }
                        return Err(e);
                    },
                }
            },
        };
        proof {
            assert(rowsv[i as int] == rows@[i as int]@);
            assert(row_passes(w, colsv, rowsv[i as int]) == Ok::<bool, ExecErrorV>(pass));
            assert(rowsv.subrange(0, i + 1).drop_last() =~= rowsv.subrange(0, i as int));
            assert(rowsv.subrange(0, i + 1).last() == rowsv[i as int]);
        }
        if pass == keep {
            kept.push(rows[i].clone());
            proof {
                assert(view_rows(kept@) =~= rows_passing(w, colsv, rowsv.subrange(0, i + 1), keep));
            }
        } else {
            proof {
                assert(view_rows(kept@) =~= rows_passing(w, colsv, rowsv.subrange(0, i + 1), keep));
            }
        }
        i += 1;
    }
    proof {
        lemma_filter_err_skip(w, colsv, rowsv, n as int);
        assert(rowsv.skip(n as int) =~= Seq::<Seq<ValueV>>::empty());
        assert(rowsv.subrange(0, n as int) =~= rowsv);
    }
    Ok(kept)
}

/// DELETE: `TableNotFound` / `TableOpenfail` when the table is missing or
/// unreadable. Every row on which the predicate holds is removed, the
/// reduced table written back, and the removed count reported. A DELETE
/// without a WHERE clause removes every row — the predicate's absence
/// passes each one.
pub open spec fn spec_execute_delete(s: crate::ast::DeleteV, src: SourceV) -> Result<
    ExecutionV,
    ExecErrorV,
> {
    match src {
        SourceV::Missing => Err(ExecErrorV::TableNotFound(s.table)),
        SourceV::Unreadable => Err(ExecErrorV::TableOpenfail(s.table)),
        SourceV::Loaded(t) => match first_filter_err(s.constraints, t.columns, t.rows) {
            Some(e) => Err(e),
            None => {
                let remaining = rows_passing(s.constraints, t.columns, t.rows, false);
                Ok(
                    ExecutionV {
                        table: s.table,
                        effect: EffectV::Write(TableV { columns: t.columns, rows: remaining }),
                        response: ResponseV::Count(t.rows.len() - remaining.len()),
                    },
                )
            },
        },
    }
}

impl DeleteStatement {
    /// Check and run a DELETE against the load outcome of its table:
    /// exactly [`spec_execute_delete`].
    pub fn check_and_execute(self, source: TableSource) -> (r: Result<
        Execution,
        QueryExecutionError,
    >)
        ensures
            match r {
                Ok(ex) => spec_execute_delete(self@, source@) == Ok::<ExecutionV, ExecErrorV>(ex@),
                Err(e) => spec_execute_delete(self@, source@) == Err::<ExecutionV, ExecErrorV>(e@),
            },
    {
        match source {
            TableSource::Missing => Err(QueryExecutionError::TableNotFound(self.table)),
            TableSource::Unreadable => Err(QueryExecutionError::TableOpenfail(self.table)),
            TableSource::Loaded(t) => {
                let SqlTable { columns, rows } = t;
                proof {
                    assert(view_where(self.constraints) == self@.constraints);
                }
                let remaining = match filter_rows(&self.constraints, &columns, &rows, false) {
                    Ok(kept) => kept,
                    Err(e) => {
                        return Err(e);
                    },
                };
                let removed = rows.len() - remaining.len();
                proof {
                    lemma_rows_passing_len(
                        view_where(self.constraints),
                        view_cols(columns@),
                        view_rows(rows@),
                        false,
                    );
                }
                let new_table = SqlTable { columns, rows: remaining };
                Ok(
                    Execution {
                        table: self.table,
                        effect: StatementEffect::Write(new_table),
                        response: ExecuteResponse::Count(removed),
                    },
                )
            },
        }
    }
}

/// Resolve a projection list against a schema: `"*"` expands to every
/// column index in schema order, a name resolves to its first matching
/// column, and an unknown name is `ColumnDoesNotExist`.
pub open spec fn resolve_projection(items: Seq<Seq<char>>, cols: Seq<ColumnV>) -> Result<
    Seq<int>,
    ExecErrorV,
>
    decreases items.len(),
{
    if items.len() == 0 {
        Ok(Seq::empty())
    } else {
        let first = if items[0] == "*"@ {
            Ok(Seq::new(cols.len(), |k: int| k))
        } else {
            match name_index(col_names(cols), items[0]) {
                Some(i) => Ok(seq![i]),
                None => Err(ExecErrorV::ColumnDoesNotExist(items[0])),
            }
        };
        match first {
            Err(e) => Err(e),
            Ok(f) => match resolve_projection(items.drop_first(), cols) {
                Err(e) => Err(e),
                Ok(rest) => Ok(f + rest),
            },
        }
    }
}

/// One row of the result view: the row's cells at the projected indices.
pub open spec fn project_row(row: Seq<ValueV>, idxs: Seq<int>) -> Seq<ValueV> {
    Seq::new(
        idxs.len(),
        |k: int| if 0 <= idxs[k] < row.len() {
            row[idxs[k]]
        } else {
            ValueV::Unknown
        },
    )
}

/// The schema of the result view: the columns at the projected indices.
pub open spec fn project_cols(cols: Seq<ColumnV>, idxs: Seq<int>) -> Seq<ColumnV> {
    Seq::new(
        idxs.len(),
        |k: int| if 0 <= idxs[k] < cols.len() {
            cols[idxs[k]]
        } else {
            ColumnV { name: Seq::empty(), type_info: SqlType::Unknown }
        },
    )
}

/// SELECT: `TableNotFound` / `TableOpenfail` when the table is missing or
/// unreadable; then the first row on which the predicate fails to
/// evaluate aborts; then the projection list is resolved; the response is
/// a materialized view of the projected columns over the rows the
/// predicate accepts, and storage is not touched.
pub open spec fn spec_execute_select(s: crate::ast::SelectV, src: SourceV) -> Result<
    ExecutionV,
    ExecErrorV,
> {
    match src {
        SourceV::Missing => Err(ExecErrorV::TableNotFound(s.table)),
        SourceV::Unreadable => Err(ExecErrorV::TableOpenfail(s.table)),
        SourceV::Loaded(t) => match first_filter_err(s.constraints, t.columns, t.rows) {
            Some(e) => Err(e),
            None => match resolve_projection(s.columns, t.columns) {
                Err(e) => Err(e),
                Ok(idxs) => {
                    let picked = rows_passing(s.constraints, t.columns, t.rows, true);
                    Ok(
                        ExecutionV {
                            table: s.table,
                            effect: EffectV::NoChange,
                            response: ResponseV::View(
                                TableV {
                                    columns: project_cols(t.columns, idxs),
                                    rows: picked.map_values(|r: Seq<ValueV>| project_row(r, idxs)),
                                },
                            ),
                        },
                    )
                },
            },
        },
    }
}

/// Resolve the projection list into concrete column indices: exactly
/// [`resolve_projection`].
fn resolve_columns(items: &Vec<String>, cols: &Vec<Column>) -> (r: Result<
    Vec<usize>,
    QueryExecutionError,
>)
    ensures
        match r {
            Ok(idxs) => resolve_projection(view_strings(items@), view_cols(cols@)) == Ok::<
                Seq<int>,
                ExecErrorV,
            >(idxs@.map_values(|u: usize| u as int)) && forall|k: int|
                0 <= k < idxs@.len() ==> #[trigger] idxs@[k] < cols@.len(),
            Err(e) => resolve_projection(view_strings(items@), view_cols(cols@)) == Err::<
                Seq<int>,
                ExecErrorV,
            >(e@),
        },
{
    let ghost itemsv = view_strings(items@);
    let ghost colsv = view_cols(cols@);
    let star = String::from_str("*");
    let mut idxs: Vec<usize> = Vec::new();
    let ghost mut acc: Seq<int> = Seq::empty();
    let n = items.len();
    let mut j: usize = 0;
    proof {
        assert(itemsv.skip(0) =~= itemsv);
    }
    while j < n
        invariant
            j <= n,
            n == items@.len(),
            itemsv == view_strings(items@),
            colsv == view_cols(cols@),
            star@ == "*"@,
            acc.len() == idxs@.len(),
            forall|k: int| 0 <= k < idxs@.len() ==> acc[k] == #[trigger] idxs@[k] as int,
            forall|k: int| 0 <= k < idxs@.len() ==> #[trigger] idxs@[k] < cols@.len(),
            colsv.len() == cols@.len(),
            match resolve_projection(itemsv.skip(j as int), colsv) {
                Ok(rest) => resolve_projection(itemsv, colsv) == Ok::<Seq<int>, ExecErrorV>(
                    acc + rest,
                ),
                Err(e) => resolve_projection(itemsv, colsv) == Err::<Seq<int>, ExecErrorV>(e),
            },
        decreases n - j,
    {
        let ghost prev = acc;
        proof {
            assert(itemsv.skip(j as int)[0] == itemsv[j as int]);
            assert(itemsv[j as int] == items@[j as int]@);
            assert(itemsv.skip(j as int).drop_first() =~= itemsv.skip(j + 1));
        }
        if crate::eval::string_eq(&items[j], &star) {
            let ghost f = Seq::new(colsv.len(), |k0: int| k0);
            let m = cols.len();
            let mut k: usize = 0;
            proof {
                assert(acc =~= prev + f.subrange(0, 0));
            }
            while k < m
                invariant
                    k <= m,
                    m == cols@.len(),
                    colsv.len() == m,
                    f == Seq::new(colsv.len(), |k0: int| k0),
                    acc.len() == idxs@.len(),
                    forall|k0: int| 0 <= k0 < idxs@.len() ==> acc[k0] == #[trigger] idxs@[k0]
                        as int,
                    forall|k0: int| 0 <= k0 < idxs@.len() ==> #[trigger] idxs@[k0] < cols@.len(),
                    acc == prev + f.subrange(0, k as int),
                decreases m - k,
            {
                idxs.push(k);
                proof {
                    acc = acc.push(k as int);
                    assert(acc =~= prev + f.subrange(0, k + 1));
                }
                k += 1;
            }
            proof {
                assert(f.subrange(0, m as int) =~= f);
                match resolve_projection(itemsv.skip(j + 1), colsv) {
                    Ok(rest) => {
                        assert((prev + f) + rest =~= prev + (f + rest));
                    },
                    Err(_) => {},
                }
            }
        } else {
            match crate::eval::find_column(cols, &items[j]) {
                Some(ci) => {
                    idxs.push(ci);
                    proof {
                        acc = acc.push(ci as int);
                        assert(acc =~= prev + seq![ci as int]);
                        match resolve_projection(itemsv.skip(j + 1), colsv) {
                            Ok(rest) => {
                                assert((prev + seq![ci as int]) + rest =~= prev + (seq![ci as int]
                                    + rest));
                            },
                            Err(_) => {},
                        }
                    }
                },
                None => {
                    return Err(QueryExecutionError::ColumnDoesNotExist(items[j].clone()));
                },
            }
        }
        j += 1;
    }
    proof {
        assert(itemsv.skip(n as int) =~= Seq::<Seq<char>>::empty());
        assert(acc + Seq::<int>::empty() =~= acc);
        assert(idxs@.map_values(|u: usize| u as int) =~= acc);
    }
    Ok(idxs)
}

impl SelectStatement {
    /// Check and run a SELECT against the load outcome of its table:
    /// exactly [`spec_execute_select`].
    pub fn check_and_execute(self, source: TableSource) -> (r: Result<
        Execution,
        QueryExecutionError,
    >)
        ensures
            match r {
                Ok(ex) => spec_execute_select(self@, source@) == Ok::<ExecutionV, ExecErrorV>(ex@),
                Err(e) => spec_execute_select(self@, source@) == Err::<ExecutionV, ExecErrorV>(e@),
            },
    {
        match source {
            TableSource::Missing => Err(QueryExecutionError::TableNotFound(self.table)),
            TableSource::Unreadable => Err(QueryExecutionError::TableOpenfail(self.table)),
            TableSource::Loaded(t) => {
                let SqlTable { columns, rows } = t;
                proof {
                    assert(view_where(self.constraints) == self@.constraints);
                }
                let picked = match filter_rows(&self.constraints, &columns, &rows, true) {
                    Ok(kept) => kept,
                    Err(e) => {
                        return Err(e);
                    },
                };
                let idxs = match resolve_columns(&self.columns, &columns) {
                    Ok(idxs) => idxs,
                    Err(e) => {
                        return Err(e);
                    },
                };
                let ghost idxsv = idxs@.map_values(|u: usize| u as int);
                let ghost colsv = view_cols(columns@);
                let ghost pickedv = view_rows(picked@);
                let m = idxs.len();
                let mut out_cols: Vec<Column> = Vec::new();
                let mut k: usize = 0;
                while k < m
                    invariant
                        k <= m,
                        m == idxs@.len(),
                        idxsv == idxs@.map_values(|u: usize| u as int),
                        colsv == view_cols(columns@),
                        colsv.len() == columns@.len(),
                        forall|k0: int| 0 <= k0 < idxs@.len() ==> #[trigger] idxs@[k0]
                            < columns@.len(),
                        out_cols@.len() == k,
                        forall|k0: int| 0 <= k0 < k ==> #[trigger] out_cols@[k0]@ == project_cols(
                            colsv,
                            idxsv,
                        )[k0],
                    decreases m - k,
                {
                    out_cols.push(columns[idxs[k]].clone());
                    k += 1;
                }
                let mut out_rows: Vec<RowValue> = Vec::new();
                let p = picked.len();
                let mut i: usize = 0;
                while i < p
                    invariant
                        i <= p,
                        p == picked@.len(),
                        m == idxs@.len(),
                        idxsv == idxs@.map_values(|u: usize| u as int),
                        pickedv == view_rows(picked@),
                        pickedv.len() == p,
                        out_rows@.len() == i,
                        forall|k0: int| 0 <= k0 < i ==> #[trigger] out_rows@[k0]@ == project_row(
                            pickedv[k0],
                            idxsv,
                        ),
                    decreases p - i,
                {
                    let mut cells: Vec<SqlValue> = Vec::new();
                    let mut k2: usize = 0;
                    while k2 < m
                        invariant
                            k2 <= m,
                            i < p,
                            m == idxs@.len(),
                            idxsv == idxs@.map_values(|u: usize| u as int),
                            pickedv == view_rows(picked@),
                            pickedv.len() == p,
                            cells@.len() == k2,
                            forall|k0: int| 0 <= k0 < k2 ==> #[trigger] cells@[k0]@ == project_row(
                                pickedv[i as int],
                                idxsv,
                            )[k0],
                        decreases m - k2,
                    {
                        let idx = idxs[k2];
                        if idx < picked[i].values.len() {
                            cells.push(picked[i].values[idx].clone());
                            proof {
                                assert(pickedv[i as int] == picked@[i as int]@);
                            }
                        } else {
                            cells.push(SqlValue::Unknown);
                            proof {
                                assert(pickedv[i as int] == picked@[i as int]@);
                            }
                        }
                        k2 += 1;
                    }
                    let rowv = RowValue { values: cells };
                    proof {
                        assert(rowv@ =~= project_row(pickedv[i as int], idxsv));
                    }
                    out_rows.push(rowv);
                    i += 1;
                }
                let view_table = SqlTable { columns: out_cols, rows: out_rows };
                proof {
                    assert(view_table@.columns =~= project_cols(colsv, idxsv));
                    assert(view_table@.rows =~= pickedv.map_values(
                        |r: Seq<ValueV>| project_row(r, idxsv),
                    ));
                }
                Ok(
                    Execution {
                        table: self.table,
                        effect: StatementEffect::NoChange,
                        response: ExecuteResponse::View(Box::new(view_table)),
                    },
                )
            },
        }
    }
}

/// Is one SET assignment valid against the schema?  Its column must
/// exist and the literal's kind must fit the declared type.
pub open spec fn set_item_ok(it: SetItemV, cols: Seq<ColumnV>) -> bool {
    match name_index(col_names(cols), it.column) {
        Some(i) => value_matches_type(it.value, cols[i].type_info),
        None => false,
    }
}

/// The error of the first invalid SET assignment, in order, if any:
/// `ColumnDoesNotExist` for an unknown target, `TypeDoesNotMatch`
/// (carrying the column name) for a literal of the wrong kind.
pub open spec fn check_sets(sets: Seq<SetItemV>, cols: Seq<ColumnV>) -> Option<ExecErrorV>
    decreases sets.len(),
{
    if sets.len() == 0 {
        None
    } else {
        match name_index(col_names(cols), sets[0].column) {
            None => Some(ExecErrorV::ColumnDoesNotExist(sets[0].column)),
            Some(i) => if !value_matches_type(sets[0].value, cols[i].type_info) {
                Some(ExecErrorV::TypeDoesNotMatch(sets[0].column))
            } else {
                check_sets(sets.drop_first(), cols)
            },
        }
    }
}

/// Unrolling [`check_sets`] past a prefix of valid assignments.
pub proof fn lemma_check_sets_skip(sets: Seq<SetItemV>, cols: Seq<ColumnV>, i: int)
    requires
        0 <= i <= sets.len(),
        forall|k: int| 0 <= k < i ==> set_item_ok(#[trigger] sets[k], cols),
    ensures
        check_sets(sets, cols) == check_sets(sets.skip(i), cols),
    decreases i,
{
    if i > 0 {
        lemma_check_sets_skip(sets.drop_first(), cols, i - 1);
        assert(sets.drop_first().skip(i - 1) =~= sets.skip(i));
    } else {
        assert(sets.skip(0) =~= sets);
    }
}

/// One row after applying the SET assignments in order: each assignment
/// overwrites the cell of its target column (later assignments to the
/// same column win); an unresolvable or out-of-range target leaves the
/// row unchanged.
pub open spec fn apply_sets(row: Seq<ValueV>, sets: Seq<SetItemV>, cols: Seq<ColumnV>) -> Seq<
    ValueV,
>
    decreases sets.len(),
{
    if sets.len() == 0 {
        row
    } else {
        let r1 = match name_index(col_names(cols), sets[0].column) {
            Some(i) => if 0 <= i < row.len() {
                row.update(i, sets[0].value)
            } else {
                row
            },
            None => row,
        };
        apply_sets(r1, sets.drop_first(), cols)
    }
}

/// All rows after an UPDATE: rows the predicate accepts are rewritten by
/// [`apply_sets`], the others stay.
pub open spec fn updated_rows(
    w: Option<WhereV>,
    sets: Seq<SetItemV>,
    cols: Seq<ColumnV>,
    rows: Seq<Seq<ValueV>>,
) -> Seq<Seq<ValueV>> {
    Seq::new(
        rows.len(),
        |i: int| if row_passes(w, cols, rows[i]) == Ok::<bool, ExecErrorV>(true) {
            apply_sets(rows[i], sets, cols)
        } else {
            rows[i]
        },
    )
}

/// UPDATE: `TableNotFound` / `TableOpenfail` when the table is missing or
/// unreadable; then the SET assignments are validated in order
/// ([`check_sets`]); then the first row on which the predicate fails to
/// evaluate aborts; otherwise every accepted row is rewritten, the table
/// written back, and the number of rewritten rows reported.
pub open spec fn spec_execute_update(s: crate::ast::UpdateV, src: SourceV) -> Result<
    ExecutionV,
    ExecErrorV,
> {
    match src {
        SourceV::Missing => Err(ExecErrorV::TableNotFound(s.table)),
        SourceV::Unreadable => Err(ExecErrorV::TableOpenfail(s.table)),
        SourceV::Loaded(t) => match check_sets(s.sets, t.columns) {
            Some(e) => Err(e),
            None => match first_filter_err(s.constraints, t.columns, t.rows) {
                Some(e) => Err(e),
                None => Ok(
                    ExecutionV {
                        table: s.table,
                        effect: EffectV::Write(
                            TableV {
                                columns: t.columns,
                                rows: updated_rows(s.constraints, s.sets, t.columns, t.rows),
                            },
                        ),
                        response: ResponseV::Count(
                            rows_passing(s.constraints, t.columns, t.rows, true).len() as int,
                        ),
                    },
                ),
            },
        },
    }
}

/// Does the literal's kind fit the declared type?
fn value_matches(v: &SqlValue, t: SqlType) -> (r: bool)
    ensures
        r == value_matches_type(v@, t),
{
    match t {
        SqlType::String => matches!(v, SqlValue::String(_)),
        SqlType::Int => matches!(v, SqlValue::Int(_)) || matches!(v, SqlValue::Unknown),
        SqlType::Unknown => matches!(v, SqlValue::Unknown),
    }
}

/// Apply the SET assignments to one row: exactly [`apply_sets`].
fn apply_sets_to_row(row: &RowValue, sets: &Vec<SetItem>, cols: &Vec<Column>) -> (r: RowValue)
    ensures
        r@ == apply_sets(row@, crate::ast::view_sets(sets@), view_cols(cols@)),
{
    let ghost setsv = crate::ast::view_sets(sets@);
    let ghost colsv = view_cols(cols@);
    let mut out = row.clone();
    let n = sets.len();
    let mut j: usize = 0;
    proof {
        assert(setsv.skip(0) =~= setsv);
    }
    while j < n
        invariant
            j <= n,
            n == sets@.len(),
            setsv == crate::ast::view_sets(sets@),
            colsv == view_cols(cols@),
            apply_sets(row@, setsv, colsv) == apply_sets(out@, setsv.skip(j as int), colsv),
        decreases n - j,
    {
        proof {
            assert(setsv.skip(j as int)[0] == setsv[j as int]);
            assert(setsv[j as int] == sets@[j as int]@);
            assert(setsv.skip(j as int).drop_first() =~= setsv.skip(j + 1));
        }
        let ghost before = out@;
        match crate::eval::find_column(cols, &sets[j].column) {
            Some(ci) => {
                if ci < out.values.len() {
                    out.values[ci] = sets[j].value.clone();
                    proof {
                        assert(out@ =~= before.update(ci as int, setsv[j as int].value));
                    }
                } else {
                    proof {
                        assert(out@ =~= before);
                    }
                }
            },
            None => {},
        }
        j += 1;
    }
    proof {
        assert(setsv.skip(n as int) =~= Seq::<SetItemV>::empty());
    }
    out
}

impl UpdateStatement {
    /// Check and run an UPDATE against the load outcome of its table:
    /// exactly [`spec_execute_update`].
    pub fn check_and_execute(self, source: TableSource) -> (r: Result<
        Execution,
        QueryExecutionError,
    >)
        ensures
            match r {
                Ok(ex) => spec_execute_update(self@, source@) == Ok::<ExecutionV, ExecErrorV>(ex@),
                Err(e) => spec_execute_update(self@, source@) == Err::<ExecutionV, ExecErrorV>(e@),
            },
    {
        match source {
            TableSource::Missing => Err(QueryExecutionError::TableNotFound(self.table)),
            TableSource::Unreadable => Err(QueryExecutionError::TableOpenfail(self.table)),
            TableSource::Loaded(t) => {
                let SqlTable { columns, rows } = t;
                let ghost setsv = crate::ast::view_sets(self.sets@);
                let ghost colsv = view_cols(columns@);
                let ghost rowsv = view_rows(rows@);
                let ghost w = view_where(self.constraints);
                proof {
                    assert(w == self@.constraints);
                    assert(setsv == self@.sets);
                }
                let ns = self.sets.len();
                let mut si: usize = 0;
                while si < ns
                    invariant
                        si <= ns,
                        ns == self.sets@.len(),
                        setsv == crate::ast::view_sets(self.sets@),
                        colsv == view_cols(columns@),
                        setsv.len() == ns,
                        source@ == SourceV::Loaded(TableV { columns: colsv, rows: rowsv }),
                        setsv == self@.sets,
                        forall|k: int| 0 <= k < si ==> set_item_ok(#[trigger] setsv[k], colsv),
                    decreases ns - si,
                {
                    proof {
                        assert(setsv[si as int] == self.sets@[si as int]@);
                    }
                    match crate::eval::find_column(&columns, &self.sets[si].column) {
                        None => {
                            proof {
                                lemma_check_sets_skip(setsv, colsv, si as int);
                                assert(setsv.skip(si as int)[0] == setsv[si as int]);
                            }
                            return Err(
                                QueryExecutionError::ColumnDoesNotExist(
                                    self.sets[si].column.clone(),
                                ),
                            );
                        },
                        Some(ci) => {
                            if !value_matches(&self.sets[si].value, columns[ci].type_info) {
                                proof {
                                    lemma_check_sets_skip(setsv, colsv, si as int);
                                    assert(setsv.skip(si as int)[0] == setsv[si as int]);
                                    assert(colsv[ci as int].type_info == columns@[
                                        ci as int
                                    ]@.type_info);
                                }
                                return Err(
                                    QueryExecutionError::TypeDoesNotMatch(
                                        self.sets[si].column.clone(),
                                    ),
                                );
                            }
                            proof {
                                assert(colsv[ci as int].type_info == columns@[
                                    ci as int
                                ]@.type_info);
                            }
                        },
                    }
                    si += 1;
                }
                proof {
                    lemma_check_sets_skip(setsv, colsv, ns as int);
                    assert(setsv.skip(ns as int) =~= Seq::<SetItemV>::empty());
                }
                let nr = rows.len();
                let mut new_rows: Vec<RowValue> = Vec::new();
                let mut count: usize = 0;
                let mut i: usize = 0;
                proof {
                    assert(rowsv.subrange(0, 0) =~= Seq::<Seq<ValueV>>::empty());
                }
                while i < nr
                    invariant
                        i <= nr,
                        nr == rows@.len(),
                        setsv == crate::ast::view_sets(self.sets@),
                        colsv == view_cols(columns@),
                        rowsv == view_rows(rows@),
                        rowsv.len() == nr,
                        w == view_where(self.constraints),
                        source@ == SourceV::Loaded(TableV { columns: colsv, rows: rowsv }),
                        setsv == self@.sets,
                        w == self@.constraints,
                        check_sets(setsv, colsv) is None,
                        forall|k: int| 0 <= k < i ==> row_passes(w, colsv, #[trigger] rowsv[k])
                            is Ok,
                        new_rows@.len() == i,
                        forall|k: int| 0 <= k < i ==> #[trigger] new_rows@[k]@ == updated_rows(
                            w,
                            setsv,
                            colsv,
                            rowsv,
                        )[k],
                        count == rows_passing(w, colsv, rowsv.subrange(0, i as int), true).len(),
                        count <= i,
                    decreases nr - i,
                {
                    let pass = match &self.constraints {
                        None => true,
                        Some(wc) => {
                            match eval_where(wc, &columns, &rows[i]) {
                                Ok(b) => b,
                                Err(e) => {
                                    proof {
                                        assert(rowsv[i as int] == rows@[i as int]@);
                                        lemma_filter_err_skip(w, colsv, rowsv, i as int);
                                        assert(rowsv.skip(i as int)[0] == rowsv[i as int]);
                                    }
                                    return Err(e);
                                },
                            }
                        },
                    };
                    proof {
                        assert(rowsv[i as int] == rows@[i as int]@);
                        assert(row_passes(w, colsv, rowsv[i as int]) == Ok::<bool, ExecErrorV>(
                            pass,
                        ));
                        assert(rowsv.subrange(0, i + 1).drop_last() =~= rowsv.subrange(
                            0,
                            i as int,
                        ));
                        assert(rowsv.subrange(0, i + 1).last() == rowsv[i as int]);
                    }
                    if pass {
                        let newrow = apply_sets_to_row(&rows[i], &self.sets, &columns);
                        new_rows.push(newrow);
                        count += 1;
                    } else {
                        new_rows.push(rows[i].clone());
                    }
                    i += 1;
                }
                proof {
                    lemma_filter_err_skip(w, colsv, rowsv, nr as int);
                    assert(rowsv.skip(nr as int) =~= Seq::<Seq<ValueV>>::empty());
                    assert(rowsv.subrange(0, nr as int) =~= rowsv);
                }
                let new_table = SqlTable { columns, rows: new_rows };
                proof {
                    assert(new_table@.rows =~= updated_rows(w, setsv, colsv, rowsv));
                }
                Ok(
                    Execution {
                        table: self.table,
                        effect: StatementEffect::Write(new_table),
                        response: ExecuteResponse::Count(count),
                    },
                )
            },
        }
    }
}

/// Top-level dispatch: forwards to the handler of the statement's kind
/// and performs no logic of its own.
pub open spec fn spec_execute_query(q: crate::ast::QueryV, src: SourceV) -> Result<
    ExecutionV,
    ExecErrorV,
> {
    match q {
        crate::ast::QueryV::Select(s) => spec_execute_select(s, src),
        crate::ast::QueryV::Insert(s) => spec_execute_insert(s, src),
        crate::ast::QueryV::Create(s) => spec_execute_create(s, src),
        crate::ast::QueryV::Delete(s) => spec_execute_delete(s, src),
        crate::ast::QueryV::Drop(s) => spec_execute_drop(s, src),
        crate::ast::QueryV::Update(s) => spec_execute_update(s, src),
    }
}

impl SqlQuery {
    /// The name of the table this statement concerns: the caller attempts
    /// to load it and hands the outcome to [`SqlQuery::check_and_execute`].
    pub fn table_name(&self) -> (r: &String)
        ensures
            r@ == match self@ {
                crate::ast::QueryV::Select(s) => s.table,
                crate::ast::QueryV::Insert(s) => s.table,
                crate::ast::QueryV::Create(s) => s.table,
                crate::ast::QueryV::Delete(s) => s.table,
                crate::ast::QueryV::Drop(s) => s.table,
                crate::ast::QueryV::Update(s) => s.table,
            },
    {
        match self {
            SqlQuery::Select(s) => &s.table,
            SqlQuery::Insert(s) => &s.table,
            SqlQuery::Create(s) => &s.table,
            SqlQuery::Delete(s) => &s.table,
            SqlQuery::Drop(s) => &s.table,
            SqlQuery::Update(s) => &s.table,
        }
    }

    /// Check and run any statement against the load outcome of its table:
    /// exactly [`spec_execute_query`].
    pub fn check_and_execute(self, source: TableSource) -> (r: Result<
        Execution,
        QueryExecutionError,
    >)
        ensures
            match r {
                Ok(ex) => spec_execute_query(self@, source@) == Ok::<ExecutionV, ExecErrorV>(ex@),
                Err(e) => spec_execute_query(self@, source@) == Err::<ExecutionV, ExecErrorV>(e@),
            },
    {
        match self {
            SqlQuery::Select(stmt) => stmt.check_and_execute(source),
            SqlQuery::Insert(stmt) => stmt.check_and_execute(source),
            SqlQuery::Create(stmt) => stmt.check_and_execute(source),
            SqlQuery::Delete(stmt) => stmt.check_and_execute(source),
            SqlQuery::Drop(stmt) => stmt.check_and_execute(source),
            SqlQuery::Update(stmt) => stmt.check_and_execute(source),
        }
    }
}

/// Applying SET assignments never changes a row's arity.
pub proof fn lemma_apply_sets_len(row: Seq<ValueV>, sets: Seq<SetItemV>, cols: Seq<ColumnV>)
    ensures
        apply_sets(row, sets, cols).len() == row.len(),
    decreases sets.len(),
{
    if sets.len() > 0 {
        let r1 = match name_index(col_names(cols), sets[0].column) {
            Some(i) => if 0 <= i < row.len() {
                row.update(i, sets[0].value)
            } else {
                row
            },
            None => row,
        };
        lemma_apply_sets_len(r1, sets.drop_first(), cols);
    }
}

/// Filtering keeps rows as they are: when every row has arity `n`, so
/// has every row that passes.
pub proof fn lemma_rows_passing_arity(
    w: Option<WhereV>,
    cols: Seq<ColumnV>,
    rows: Seq<Seq<ValueV>>,
    keep: bool,
    n: int,
)
    requires
        forall|i: int| 0 <= i < rows.len() ==> #[trigger] rows[i].len() == n,
    ensures
        forall|i: int| 0 <= i < rows_passing(w, cols, rows, keep).len()
            ==> #[trigger] rows_passing(w, cols, rows, keep)[i].len() == n,
    decreases rows.len(),
{
    if rows.len() > 0 {
        lemma_rows_passing_arity(w, cols, rows.drop_last(), keep, n);
        let prev = rows_passing(w, cols, rows.drop_last(), keep);
        if row_passes(w, cols, rows.last()) == Ok::<bool, ExecErrorV>(keep) {
            assert(rows_passing(w, cols, rows, keep) == prev.push(rows.last()));
        }
    }
}

/// Law: the table invariant is kept. Whatever table a successful
/// statement writes back over a rectangular source is rectangular:
/// every row has the schema's arity. (A CREATE writes an empty table
/// over its declared columns; the grammar always declares at least
/// one.)
pub proof fn lemma_write_effects_keep_arity(
    q: crate::ast::QueryV,
    src: SourceV,
    ex: ExecutionV,
)
    requires
        spec_execute_query(q, src) == Ok::<ExecutionV, ExecErrorV>(ex),
        match src {
            SourceV::Loaded(t) => crate::storage::table_rect(t),
            _ => true,
        },
        match q {
            crate::ast::QueryV::Create(c) => c.columns.len() >= 1,
            _ => true,
        },
    ensures
        match ex.effect {
            EffectV::Write(t2) => crate::storage::table_rect(t2),
            _ => true,
        },
{
    match q {
        crate::ast::QueryV::Create(_) => {},
        crate::ast::QueryV::Drop(_) => {},
        crate::ast::QueryV::Select(_) => {},
        crate::ast::QueryV::Insert(st) => {
            match src {
                SourceV::Loaded(t) => {
                    match st.columns {
                        Some(names) => {
                            match spec_reconcile(names, st.values, t.columns) {
                                Ok(row) => {
                                    assert(row.len() == t.columns.len());
                                },
                                Err(_) => {},
                            }
                        },
                        None => {},
                    }
                },
                _ => {},
            }
        },
        crate::ast::QueryV::Delete(st) => {
            match src {
                SourceV::Loaded(t) => {
                    lemma_rows_passing_arity(
                        st.constraints,
                        t.columns,
                        t.rows,
                        false,
                        t.columns.len() as int,
                    );
                },
                _ => {},
            }
        },
        crate::ast::QueryV::Update(st) => {
            match src {
                SourceV::Loaded(t) => {
                    assert forall|i: int|
                        0 <= i < updated_rows(st.constraints, st.sets, t.columns, t.rows).len()
                        implies #[trigger] updated_rows(
                        st.constraints,
                        st.sets,
                        t.columns,
                        t.rows,
                    )[i].len() == t.columns.len() by {
                        lemma_apply_sets_len(t.rows[i], st.sets, t.columns);
                    }
                },
                _ => {},
            }
        },
    }
}

} // verus!
