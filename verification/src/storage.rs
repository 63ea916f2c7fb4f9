//! The flat-file table format.
//!
//! A table is persisted as comma-delimited text, one record per line:
//! record 1 holds the column names in declaration order, record 2 the
//! column type tags (`String` | `Int`; anything else reads back as
//! `Unknown`), and every further record one row, cell for cell. Loading
//! is best-effort: a cell that does not parse as its column's declared
//! type becomes the `Unknown` sentinel instead of failing the load.
//!
//! The record encoding and decoding here is verified; only the final
//! step — records to comma-delimited bytes and back — is delegated to
//! the `csv` crate behind trusted wrappers. File I/O is the caller's.

use vstd::prelude::*;
use crate::ast::{
    Column, ColumnV, RowValue, SqlTable, SqlType, SqlValue, TableV, ValueV, col_names, table_wf,
    value_matches_type, view_cols,
};
use crate::num::{format_i32, int_chars, parse_i32, spec_parse_i32, lemma_int_chars_parse};
use crate::text::{str_to_chars, string_from_chars};

verus! {

/// The tag written for a column type.
pub open spec fn type_tag(t: SqlType) -> Seq<char> {
    match t {
        SqlType::String => "String"@,
        SqlType::Int => "Int"@,
        SqlType::Unknown => "Unknown"@,
    }
}

/// The type a tag reads back as: unrecognized tags are accepted
/// defensively as `Unknown` rather than failing the load.
pub open spec fn tag_type(s: Seq<char>) -> SqlType {
    if s == "String"@ {
        SqlType::String
    } else if s == "Int"@ {
        SqlType::Int
    } else {
        SqlType::Unknown
    }
}

/// The text written for one cell: strings verbatim, integers as decimal
/// text, the `Unknown` sentinel as a literal placeholder.
pub open spec fn cell_text(v: ValueV) -> Seq<char> {
    match v {
        ValueV::String(s) => s,
        ValueV::Int(i) => int_chars(i),
        ValueV::Unknown => "Unknown"@,
    }
}

/// Reading one cell back under its column's declared type: `String`
/// always succeeds; an `Int` cell that does not parse becomes `Unknown`;
/// an `Unknown` column holds only `Unknown`.
pub open spec fn coerce_cell(s: Seq<char>, t: SqlType) -> ValueV {
    match t {
        SqlType::String => ValueV::String(s),
        SqlType::Int => match spec_parse_i32(s) {
            Some(v) => ValueV::Int(v),
            None => ValueV::Unknown,
        },
        SqlType::Unknown => ValueV::Unknown,
    }
}

/// A table as records: names, type tags, then one record per row.
pub open spec fn encode_table(t: TableV) -> Seq<Seq<Seq<char>>> {
    seq![col_names(t.columns), t.columns.map_values(|c: ColumnV| type_tag(c.type_info))]
        + t.rows.map_values(|r: Seq<ValueV>| r.map_values(|v: ValueV| cell_text(v)))
}

/// Every record has the arity of the first.
pub open spec fn rect_records(recs: Seq<Seq<Seq<char>>>) -> bool {
    forall|k: int| 0 <= k < recs.len() ==> #[trigger] recs[k].len() == recs[0].len()
}

/// Records back to a table: fewer than two records, an empty header, or
/// uneven arities reject the input; otherwise record 1 names the
/// columns, record 2 tags their types, and each further record is
/// coerced cell by cell under the declared types.
pub open spec fn decode_records(recs: Seq<Seq<Seq<char>>>) -> Option<TableV> {
    if recs.len() < 2 || recs[0].len() == 0 || !rect_records(recs) {
        None
    } else {
        let cols = Seq::new(
            recs[0].len(),
            |i: int| ColumnV { name: recs[0][i], type_info: tag_type(recs[1][i]) },
        );
        let rows = recs.skip(2).map_values(
            |r: Seq<Seq<char>>| Seq::new(r.len(), |j: int| coerce_cell(r[j], cols[j].type_info)),
        );
        Some(TableV { columns: cols, rows })
    }
}

/// A table with at least one column whose rows all have the schema's
/// arity; what [`save_table`] requires of its input.
pub open spec fn table_rect(t: TableV) -> bool {
    &&& t.columns.len() >= 1
    &&& forall|i: int| 0 <= i < t.rows.len() ==> #[trigger] t.rows[i].len() == t.columns.len()
}

/// Law: a well-formed table written as records reads back structurally
/// equal — including `Unknown` cells in `Int` columns, whose placeholder
/// text deliberately fails integer coercion and so reloads as `Unknown`.
pub proof fn lemma_storage_round_trip(t: TableV)
    requires
        table_wf(t),
    ensures
        decode_records(encode_table(t)) == Some(t),
{
    reveal_strlit("String");
    reveal_strlit("Int");
    reveal_strlit("Unknown");
    let e = encode_table(t);
    assert(e.len() == 2 + t.rows.len());
    assert(e[0] == col_names(t.columns));
    assert(e[0].len() == t.columns.len());
    assert(rect_records(e)) by {
        assert(e[1].len() == t.columns.len());
        assert(forall|k: int| 2 <= k < e.len() ==> #[trigger] e[k].len() == t.rows[k - 2].len());
    }
    let cols = Seq::new(
        e[0].len(),
        |i: int| ColumnV { name: e[0][i], type_info: tag_type(e[1][i]) },
    );
    assert(cols =~= t.columns) by {
        assert forall|i: int| 0 <= i < cols.len() implies cols[i] == t.columns[i] by {
            assert(e[0][i] == t.columns[i].name);
            assert(e[1][i] == type_tag(t.columns[i].type_info));
            lemma_tag_round_trip(t.columns[i].type_info);
        }
    }
    let rows = e.skip(2).map_values(
        |r: Seq<Seq<char>>| Seq::new(r.len(), |j: int| coerce_cell(r[j], cols[j].type_info)),
    );
    assert(e.skip(2) =~= t.rows.map_values(|r: Seq<ValueV>| r.map_values(|v: ValueV| cell_text(v))));
    assert(rows =~= t.rows) by {
        assert forall|i: int| 0 <= i < rows.len() implies rows[i] == t.rows[i] by {
            let enc = e.skip(2)[i];
            assert(enc == t.rows[i].map_values(|v: ValueV| cell_text(v)));
            assert(rows[i] =~= t.rows[i]) by {
                assert forall|j: int| 0 <= j < t.rows[i].len() implies Seq::new(
                    enc.len(),
                    |j0: int| coerce_cell(enc[j0], cols[j0].type_info),
                )[j] == t.rows[i][j] by {
                    assert(enc[j] == cell_text(t.rows[i][j]));
                    assert(value_matches_type(t.rows[i][j], t.columns[j].type_info));
                    lemma_cell_round_trip(t.rows[i][j], t.columns[j].type_info);
                    assert(cols[j].type_info == t.columns[j].type_info);
                }
            }
        }
    }
    assert(decode_records(e) == Some(TableV { columns: cols, rows }));
    assert(TableV { columns: cols, rows } == t);
}


/// Law: whatever storage loads is a well-formed table — every row has
/// the schema's arity, and every cell fits its column's declared type,
/// with `Unknown` exactly where coercion failed.
pub proof fn lemma_loaded_table_wf(recs: Seq<Seq<Seq<char>>>, t: TableV)
    requires
        decode_records(recs) == Some(t),
    ensures
        table_wf(t),
{
    assert forall|i: int| 0 <= i < t.rows.len() implies crate::ast::row_wf(
        #[trigger] t.rows[i],
        t.columns,
    ) by {
        assert(recs[i + 2].len() == recs[0].len());
        assert(t.rows[i].len() == t.columns.len());
        assert forall|j: int| 0 <= j < t.rows[i].len() implies value_matches_type(
            t.rows[i][j],
            t.columns[j].type_info,
        ) by {
            assert(t.rows[i][j] == coerce_cell(recs[i + 2][j], t.columns[j].type_info));
            match t.columns[j].type_info {
                SqlType::Int => {
                    match spec_parse_i32(recs[i + 2][j]) {
                        Some(_) => {},
                        None => {},
                    }
                },
                _ => {},
            }
        }
    }
}

/// A type tag reads back as its type.
proof fn lemma_tag_round_trip(t: SqlType)
    ensures
        tag_type(type_tag(t)) == t,
{
    reveal_strlit("String");
    reveal_strlit("Int");
    reveal_strlit("Unknown");
    match t {
        SqlType::String => {},
        SqlType::Int => {
            assert("Int"@.len() == 3 && "String"@.len() == 6);
        },
        SqlType::Unknown => {
            assert("Unknown"@.len() == 7 && "String"@.len() == 6 && "Int"@.len() == 3);
        },
    }
}

/// A cell that fits its column's type reads back as itself.
proof fn lemma_cell_round_trip(v: ValueV, t: SqlType)
    requires
        value_matches_type(v, t),
    ensures
        coerce_cell(cell_text(v), t) == v,
{
    reveal_strlit("Unknown");
    match t {
        SqlType::String => {},
        SqlType::Int => {
            match v {
                ValueV::Int(i) => {
                    lemma_int_chars_parse(i);
                },
                _ => {
                    assert("Unknown"@[0] == 'U');
                    assert(!crate::num::is_digit('U'));
                    assert(spec_parse_i32("Unknown"@) is None);
                },
            }
        },
        SqlType::Unknown => {},
    }
}

/// What `csv::Writer` produces for a record set: one line per record,
/// fields quoted as needed. Opaque; known only through the wrappers.
pub uninterp spec fn csv_bytes_of(recs: Seq<Seq<Seq<char>>>) -> Seq<u8>;

/// What `csv::Reader` yields for a byte string: the records, or nothing
/// when the bytes are not a readable, even-arity CSV text. Opaque; known
/// only through the wrappers.
pub uninterp spec fn csv_records_of(bytes: Seq<u8>) -> Option<Seq<Seq<Seq<char>>>>;

/// Relies on `csv::Writer` (`write_record`, `into_inner`): writes one
/// record per line, quoting fields exactly as far as needed, so that
/// reading the output back yields the records that were written. The
/// sink is an in-memory buffer, which cannot fail.
#[verifier::external_body]
fn csv_encode(recs: &Vec<Vec<String>>) -> (r: Vec<u8>)
    requires
        recs@.len() >= 1,
        recs@[0]@.len() >= 1,
        forall|k: int| 0 <= k < recs@.len() ==> #[trigger] recs@[k]@.len() == recs@[0]@.len(),
    ensures
        r.deep_view() == csv_bytes_of(recs.deep_view()),
        csv_records_of(r.deep_view()) == Some(recs.deep_view()),
{
    let mut writer = csv::Writer::from_writer(Vec::new());
    for rec in recs {
        writer.write_record(rec).unwrap();
    }
    writer.into_inner().unwrap()
}

/// Relies on `csv::Reader` (`ReaderBuilder`, `records`): reads one
/// record per line with unquoting, yielding `None` on any read error —
/// a record of unexpected arity or text that is not valid UTF-8.
#[verifier::external_body]
fn csv_decode(bytes: &Vec<u8>) -> (r: Option<Vec<Vec<String>>>)
    ensures
        match r {
            Some(recs) => csv_records_of(bytes.deep_view()) == Some(recs.deep_view()),
            None => csv_records_of(bytes.deep_view()) is None,
        },
{
    let mut reader = csv::ReaderBuilder::new().has_headers(false).from_reader(bytes.as_slice());
    let mut recs: Vec<Vec<String>> = Vec::new();
    for record in reader.records() {
        match record {
            Ok(rec) => recs.push(rec.iter().map(|f| f.to_string()).collect()),
            Err(_) => return None,
        }
    }
    Some(recs)
}

/// Encode a table as records: exactly [`encode_table`].
pub fn table_to_records(t: &SqlTable) -> (r: Vec<Vec<String>>)
    ensures
        r.deep_view() == encode_table(t@),
{
    let ghost e = encode_table(t@);
    let mut recs: Vec<Vec<String>> = Vec::new();
    let n = t.columns.len();
    let mut names: Vec<String> = Vec::new();
    let mut i: usize = 0;
    while i < n
        invariant
            i <= n,
            n == t.columns@.len(),
            names@.len() == i,
            forall|k: int| 0 <= k < i ==> names@[k]@ == col_names(view_cols(t.columns@))[k],
        decreases n - i,
    {
        names.push(t.columns[i].name.clone());
        i += 1;
    }
    recs.push(names);
    let mut tags: Vec<String> = Vec::new();
    let mut j: usize = 0;
    while j < n
        invariant
            j <= n,
            n == t.columns@.len(),
            tags@.len() == j,
            forall|k: int| 0 <= k < j ==> tags@[k]@ == type_tag(
                view_cols(t.columns@)[k].type_info,
            ),
        decreases n - j,
    {
        match t.columns[j].type_info {
            SqlType::String => tags.push(String::from_str("String")),
            SqlType::Int => tags.push(String::from_str("Int")),
            SqlType::Unknown => tags.push(String::from_str("Unknown")),
        }
        j += 1;
    }
    recs.push(tags);
    let m = t.rows.len();
    let mut ri: usize = 0;
    while ri < m
        invariant
            ri <= m,
            m == t.rows@.len(),
            n == t.columns@.len(),
            e == encode_table(t@),
            recs@.len() == 2 + ri,
            forall|k: int| 0 <= k < 2 + ri ==> #[trigger] recs@[k].deep_view() == e[k],
        decreases m - ri,
    {
        let row = &t.rows[ri];
        let w = row.values.len();
        let mut cells: Vec<String> = Vec::new();
        let mut ci: usize = 0;
        while ci < w
            invariant
                ci <= w,
                w == row.values@.len(),
                row == t.rows@[ri as int],
                ri < m,
                m == t.rows@.len(),
                cells@.len() == ci,
                forall|k: int| 0 <= k < ci ==> cells@[k]@ == cell_text(row@[k]),
            decreases w - ci,
        {
            match &row.values[ci] {
                SqlValue::String(s) => cells.push(s.clone()),
                SqlValue::Int(x) => {
                    let digits = format_i32(*x);
                    cells.push(string_from_chars(&digits));
                },
                SqlValue::Unknown => cells.push(String::from_str("Unknown")),
            }
            proof {
                assert(row@[ci as int] == row.values@[ci as int]@);
            }
            ci += 1;
        }
        proof {
            assert(cells.deep_view() =~= t@.rows[ri as int].map_values(
                |v: ValueV| cell_text(v),
            ));
            assert(e[2 + ri] == t@.rows[ri as int].map_values(|v: ValueV| cell_text(v)));
        }
        recs.push(cells);
        ri += 1;
    }
    proof {
        assert(recs@[0].deep_view() =~= col_names(view_cols(t.columns@)));
        assert(recs@[1].deep_view() =~= view_cols(t.columns@).map_values(
            |c: ColumnV| type_tag(c.type_info),
        ));
        assert(e.len() == 2 + m);
        assert(recs.deep_view() =~= e);
    }
    recs
}

/// Decode records into a table: exactly [`decode_records`].
pub fn records_to_table(recs: &Vec<Vec<String>>) -> (r: Option<SqlTable>)
    ensures
        match r {
            Some(t) => decode_records(recs.deep_view()) == Some(t@),
            None => decode_records(recs.deep_view()) is None,
        },
{
    let ghost rv = recs.deep_view();
    if recs.len() < 2 {
        return None;
    }
    let w = recs[0].len();
    if w == 0 {
        return None;
    }
    let n = recs.len();
    let mut k: usize = 0;
    while k < n
        invariant
            k <= n,
            n == recs@.len(),
            rv == recs.deep_view(),
            rv.len() == n,
            w == rv[0].len(),
            forall|t: int| 0 <= t < k ==> #[trigger] rv[t].len() == rv[0].len(),
        decreases n - k,
    {
        if recs[k].len() != w {
            proof {
                assert(rv[k as int].len() != rv[0].len());
            }
            return None;
        }
        proof {
            assert(rv[k as int].len() == recs@[k as int].deep_view().len());
        }
        k += 1;
    }
    let ghost colsv = Seq::new(
        rv[0].len(),
        |i: int| ColumnV { name: rv[0][i], type_info: tag_type(rv[1][i]) },
    );
    let tag_string = String::from_str("String");
    let tag_int = String::from_str("Int");
    let mut columns: Vec<Column> = Vec::new();
    let mut i: usize = 0;
    while i < w
        invariant
            i <= w,
            rv == recs.deep_view(),
            rv.len() == n >= 2,
            w == rv[0].len(),
            w == rv[1].len(),
            recs@.len() == n,
            colsv == Seq::new(
                rv[0].len(),
                |i0: int| ColumnV { name: rv[0][i0], type_info: tag_type(rv[1][i0]) },
            ),
            tag_string@ == "String"@,
            tag_int@ == "Int"@,
            columns@.len() == i,
            forall|k0: int| 0 <= k0 < i ==> columns@[k0]@ == colsv[k0],
        decreases w - i,
    {
        let name = recs[0][i].clone();
        let type_info = if crate::eval::string_eq(&recs[1][i], &tag_string) {
            SqlType::String
        } else if crate::eval::string_eq(&recs[1][i], &tag_int) {
            SqlType::Int
        } else {
            SqlType::Unknown
        };
        proof {
            assert(rv[0][i as int] == recs@[0 as int]@[i as int]@);
            assert(rv[1][i as int] == recs@[1 as int]@[i as int]@);
        }
        columns.push(Column { name, type_info });
        i += 1;
    }
    let ghost rowsv = rv.skip(2).map_values(
        |r0: Seq<Seq<char>>| Seq::new(r0.len(), |j: int| coerce_cell(r0[j], colsv[j].type_info)),
    );
    let mut rows: Vec<RowValue> = Vec::new();
    let mut ri: usize = 2;
    while ri < n
        invariant
            2 <= ri <= n,
            rv == recs.deep_view(),
            rv.len() == n,
            recs@.len() == n,
            w == rv[0].len(),
            forall|t: int| 0 <= t < n ==> #[trigger] rv[t].len() == rv[0].len(),
            columns@.len() == w,
            forall|k0: int| 0 <= k0 < w ==> #[trigger] columns@[k0]@ == colsv[k0],
            colsv.len() == w,
            rowsv == rv.skip(2).map_values(
                |r0: Seq<Seq<char>>| Seq::new(
                    r0.len(),
                    |j: int| coerce_cell(r0[j], colsv[j].type_info),
                ),
            ),
            rows@.len() == ri - 2,
            forall|k0: int| 0 <= k0 < ri - 2 ==> #[trigger] rows@[k0]@ == rowsv[k0],
        decreases n - ri,
    {
        let rec = &recs[ri];
        let mut cells: Vec<SqlValue> = Vec::new();
        let mut ci: usize = 0;
        proof {
            assert(rv[ri as int].len() == rv[0].len());
            assert(rec.deep_view() == rv[ri as int]);
        }
        while ci < w
            invariant
                ci <= w,
                w == rec@.len(),
                rec == recs@[ri as int],
                2 <= ri < n,
                recs@.len() == n,
                rv == recs.deep_view(),
                rv.len() == n,
                columns@.len() == w,
                forall|k0: int| 0 <= k0 < w ==> #[trigger] columns@[k0]@ == colsv[k0],
                colsv.len() == w,
                cells@.len() == ci,
                forall|k0: int| 0 <= k0 < ci ==> cells@[k0]@ == coerce_cell(
                    #[trigger] rec@[k0]@,
                    colsv[k0].type_info,
                ),
            decreases w - ci,
        {
            let cell = match columns[ci].type_info {
                SqlType::String => SqlValue::String(rec[ci].clone()),
                SqlType::Int => {
                    let chars = str_to_chars(rec[ci].as_str());
                    match parse_i32(&chars) {
                        Some(v) => SqlValue::Int(v),
                        None => SqlValue::Unknown,
                    }
                },
                SqlType::Unknown => SqlValue::Unknown,
            };
            proof {
                assert(columns@[ci as int]@.type_info == colsv[ci as int].type_info);
            }
            cells.push(cell);
            ci += 1;
        }
        let rowv = RowValue { values: cells };
        proof {
            assert(rv.skip(2)[ri - 2] == rv[ri as int]);
            assert(rec.deep_view() =~= rv[ri as int]);
            assert forall|j: int| 0 <= j < w implies rec.deep_view()[j] == rec@[j]@ by {}
            assert(rowv@ =~= rowsv[ri - 2]);
        }
        rows.push(rowv);
        ri += 1;
    }
    let t = SqlTable { columns, rows };
    proof {
        assert(t@.columns =~= colsv);
        assert(t@.rows =~= rowsv);
    }
    Some(t)
}

/// What loading a byte string yields: the bytes read as records, then
/// the records decoded as a table.
pub open spec fn spec_load(bytes: Seq<u8>) -> Option<TableV> {
    match csv_records_of(bytes) {
        None => None,
        Some(recs) => decode_records(recs),
    }
}

/// Serialize a table to the flat-file bytes. The bytes are the records
/// of [`encode_table`] written as comma-delimited text, and reading them
/// back yields those records; for a well-formed table, loading the bytes
/// yields the table itself (the round-trip law, end to end).
pub fn save_table(t: &SqlTable) -> (r: Vec<u8>)
    requires
        table_rect(t@),
    ensures
        r.deep_view() == csv_bytes_of(encode_table(t@)),
        csv_records_of(r.deep_view()) == Some(encode_table(t@)),
        spec_load(r.deep_view()) == decode_records(encode_table(t@)),
        table_wf(t@) ==> spec_load(r.deep_view()) == Some(t@),
{
    proof {
        if table_wf(t@) {
            lemma_storage_round_trip(t@);
        }
    }
    let recs = table_to_records(t);
    proof {
        let e = encode_table(t@);
        assert(recs@.len() == e.len());
        assert(recs@[0]@.len() == recs.deep_view()[0].len());
        assert(e[0].len() == t@.columns.len());
        assert forall|k: int| 0 <= k < recs@.len() implies #[trigger] recs@[k]@.len()
            == recs@[0]@.len() by {
            assert(recs@[k]@.len() == recs.deep_view()[k].len());
            assert(e[1].len() == t@.columns.len());
            if k >= 2 {
                assert(e[k] == t@.rows[k - 2].map_values(|v: ValueV| cell_text(v)));
            }
        }
    }
    csv_encode(&recs)
}

/// Parse the flat-file bytes back into a table: exactly [`spec_load`].
/// `None` means the bytes were unreadable as a table.
pub fn load_table(bytes: &Vec<u8>) -> (r: Option<SqlTable>)
    ensures
        match r {
            Some(t) => spec_load(bytes.deep_view()) == Some(t@),
            None => spec_load(bytes.deep_view()) is None,
        },
{
    match csv_decode(bytes) {
        None => None,
        Some(recs) => records_to_table(&recs),
    }
}

} // verus!
