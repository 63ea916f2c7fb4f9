//! Plain-text rendering of execution responses.
//!
//! A message renders as its text, a count as decimal digits, and a view
//! table as lines — the column names first, then one line per row —
//! with cells joined by `" | "`. Cells render as storage writes them:
//! strings verbatim, integers as decimal text, `Unknown` as its
//! placeholder.

use vstd::prelude::*;
use vstd::string::StringExecFns;
use crate::ast::{ExecuteResponse, ResponseV, SqlTable, SqlValue, TableV, ValueV, col_names};
use crate::num::{digits_of, format_u64};
use crate::storage::cell_text;
use crate::text::string_from_chars;

verus! {

/// `parts` joined by `sep`.
pub open spec fn join_with(parts: Seq<Seq<char>>, sep: Seq<char>) -> Seq<char>
    decreases parts.len(),
{
    if parts.len() == 0 {
        Seq::empty()
    } else if parts.len() == 1 {
        parts[0]
    } else {
        parts[0] + sep + join_with(parts.drop_first(), sep)
    }
}

/// Joining one more part appends a separator and the part.
pub proof fn lemma_join_push(parts: Seq<Seq<char>>, sep: Seq<char>, x: Seq<char>)
    ensures
        join_with(parts.push(x), sep) == if parts.len() == 0 {
            x
        } else {
            join_with(parts, sep) + sep + x
        },
    decreases parts.len(),
{
    if parts.len() == 0 {
        assert(parts.push(x)[0] == x);
    } else {
        lemma_join_push(parts.drop_first(), sep, x);
        assert(parts.push(x).drop_first() =~= parts.drop_first().push(x));
        if parts.len() == 1 {
            assert(parts.drop_first().push(x)[0] == x);
            assert(join_with(parts.push(x), sep) == parts[0] + sep + x);
        } else {
            assert(join_with(parts.push(x), sep) == parts[0] + sep + join_with(
                parts.drop_first().push(x),
                sep,
            ));
            assert(parts[0] + sep + (join_with(parts.drop_first(), sep) + sep + x) =~= (parts[0]
                + sep + join_with(parts.drop_first(), sep)) + sep + x);
        }
    }
}

/// One rendered row: its cells joined by `" | "`.
pub open spec fn row_line(r: Seq<ValueV>) -> Seq<char> {
    join_with(r.map_values(|v: ValueV| cell_text(v)), " | "@)
}

/// A rendered table: the header line, then one line per row.
pub open spec fn table_text(t: TableV) -> Seq<char> {
    join_with(
        seq![join_with(col_names(t.columns), " | "@)] + t.rows.map_values(
            |r: Seq<ValueV>| row_line(r),
        ),
        "\n"@,
    )
}

/// A rendered response.
pub open spec fn response_text(r: ResponseV) -> Seq<char> {
    match r {
        ResponseV::Message(m) => m,
        ResponseV::Count(n) => if n >= 0 {
            digits_of(n as nat)
        } else {
            Seq::empty()
        },
        ResponseV::View(t) => table_text(t),
    }
}

/// Render one cell as storage writes it: exactly [`cell_text`].
fn render_cell(v: &SqlValue) -> (r: String)
    ensures
        r@ == cell_text(v@),
{
    match v {
        SqlValue::String(s) => s.clone(),
        SqlValue::Int(x) => {
            let digits = crate::num::format_i32(*x);
            string_from_chars(&digits)
        },
        SqlValue::Unknown => String::from_str("Unknown"),
    }
}

/// Join rendered parts with a separator: exactly [`join_with`].
fn join_strings(parts: &Vec<String>, sep: &str) -> (r: String)
    ensures
        r@ == join_with(crate::ast::view_strings(parts@), sep@),
{
    let ghost pv = crate::ast::view_strings(parts@);
    let mut acc = String::new();
    let n = parts.len();
    let mut i: usize = 0;
    proof {
        assert(pv.subrange(0, 0) =~= Seq::<Seq<char>>::empty());
    }
    while i < n
        invariant
            i <= n,
            n == parts@.len(),
            pv == crate::ast::view_strings(parts@),
            pv.len() == n,
            acc@ == join_with(pv.subrange(0, i as int), sep@),
        decreases n - i,
    {
        if i > 0 {
            acc.append(sep);
        }
        acc.append(parts[i].as_str());
        proof {
            assert(pv.subrange(0, i + 1) =~= pv.subrange(0, i as int).push(pv[i as int]));
            lemma_join_push(pv.subrange(0, i as int), sep@, pv[i as int]);
            assert(pv[i as int] == parts@[i as int]@);
        }
        i += 1;
    }
    proof {
        assert(pv.subrange(0, n as int) =~= pv);
    }
    acc
}

/// Render a table as plain text lines: exactly [`table_text`].
pub fn render_table(t: &SqlTable) -> (r: String)
    ensures
        r@ == table_text(t@),
{
    let mut lines: Vec<String> = Vec::new();
    let mut header: Vec<String> = Vec::new();
    let n = t.columns.len();
    let mut i: usize = 0;
    while i < n
        invariant
            i <= n,
            n == t.columns@.len(),
            header@.len() == i,
            forall|k: int| 0 <= k < i ==> header@[k]@ == col_names(t@.columns)[k],
        decreases n - i,
    {
        header.push(t.columns[i].name.clone());
        i += 1;
    }
    proof {
        assert(crate::ast::view_strings(header@) =~= col_names(t@.columns));
    }
    lines.push(join_strings(&header, " | "));
    let m = t.rows.len();
    let mut ri: usize = 0;
    while ri < m
        invariant
            ri <= m,
            m == t.rows@.len(),
            lines@.len() == 1 + ri,
            lines@[0]@ == join_with(col_names(t@.columns), " | "@),
            forall|k: int| 0 <= k < ri ==> lines@[k + 1]@ == row_line(t@.rows[k]),
        decreases m - ri,
    {
        let row = &t.rows[ri];
        let w = row.values.len();
        let mut cells: Vec<String> = Vec::new();
        let mut ci: usize = 0;
        while ci < w
            invariant
                ci <= w,
                w == row.values@.len(),
                row == t.rows@[ri as int],
                ri < m,
                m == t.rows@.len(),
                cells@.len() == ci,
                forall|k: int| 0 <= k < ci ==> cells@[k]@ == cell_text(row@[k]),
            decreases w - ci,
        {
            cells.push(render_cell(&row.values[ci]));
            proof {
                assert(row@[ci as int] == row.values@[ci as int]@);
            }
            ci += 1;
        }
        proof {
            assert(crate::ast::view_strings(cells@) =~= t@.rows[ri as int].map_values(
                |v: ValueV| cell_text(v),
            ));
        }
        lines.push(join_strings(&cells, " | "));
        ri += 1;
    }
    proof {
        assert(crate::ast::view_strings(lines@) =~= seq![
            join_with(col_names(t@.columns), " | "@),
        ] + t@.rows.map_values(|r0: Seq<ValueV>| row_line(r0)));
    }
    join_strings(&lines, "\n")
}

impl ExecuteResponse {
    /// Render the response as plain text: exactly [`response_text`].
    pub fn render_text(&self) -> (r: String)
        ensures
            r@ == response_text(self@),
    {
        match self {
            ExecuteResponse::Message(m) => m.clone(),
            ExecuteResponse::Count(n) => {
                let digits = format_u64(*n as u64);
                string_from_chars(&digits)
            },
            ExecuteResponse::View(t) => render_table(t),
        }
    }
}

} // verus!
