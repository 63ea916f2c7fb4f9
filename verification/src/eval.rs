//! Value comparison and WHERE-predicate evaluation.
//!
//! Comparison is defined only between values of the same kind: `Int`
//! against `Int` in numeric order, `String` against `String` in
//! lexicographic order by code point. Anything else — including the
//! `Unknown` sentinel — is a type mismatch, reported as an error, never a
//! silent `false`.

use vstd::prelude::*;
use vstd::string::StrSliceExecFns;
use crate::ast::{
    BoolOpt, CmpOpt, Column, ColumnV, ExecErrorV, QueryExecutionError, RowValue, SqlValue,
    ValueV, WhereConstraint, WhereV, col_names, view_cols, view_strings,
};

verus! {

/// Strict lexicographic order on character sequences, by code point.
pub open spec fn lex_lt(a: Seq<char>, b: Seq<char>) -> bool
    decreases a.len(),
{
    if b.len() == 0 {
        false
    } else if a.len() == 0 {
        true
    } else if (a[0] as int) < (b[0] as int) {
        true
    } else if a[0] == b[0] {
        lex_lt(a.drop_first(), b.drop_first())
    } else {
        false
    }
}

/// What a comparison operator means on two integers.
pub open spec fn int_cmp(op: CmpOpt, x: int, y: int) -> bool {
    match op {
        CmpOpt::Eq => x == y,
        CmpOpt::Ne => x != y,
        CmpOpt::Lt => x < y,
        CmpOpt::Le => x <= y,
        CmpOpt::Gt => x > y,
        CmpOpt::Ge => x >= y,
    }
}

/// What a comparison operator means on two strings: lexicographic order.
pub open spec fn str_cmp(op: CmpOpt, x: Seq<char>, y: Seq<char>) -> bool {
    match op {
        CmpOpt::Eq => x == y,
        CmpOpt::Ne => x != y,
        CmpOpt::Lt => lex_lt(x, y),
        CmpOpt::Le => lex_lt(x, y) || x == y,
        CmpOpt::Gt => lex_lt(y, x),
        CmpOpt::Ge => lex_lt(y, x) || x == y,
    }
}

/// Comparison of two scalar values: defined (`Some`) only between two
/// `Int`s or two `String`s; every other pairing is `None`, a type
/// mismatch.
pub open spec fn cmp_holds(op: CmpOpt, a: ValueV, b: ValueV) -> Option<bool> {
    match (a, b) {
        (ValueV::Int(x), ValueV::Int(y)) => Some(int_cmp(op, x, y)),
        (ValueV::String(x), ValueV::String(y)) => Some(str_cmp(op, x, y)),
        _ => None,
    }
}

/// Index of the first entry of `names` equal to `n`, if any.
pub open spec fn name_index(names: Seq<Seq<char>>, n: Seq<char>) -> Option<int>
    decreases names.len(),
{
    if names.len() == 0 {
        None
    } else if names[0] == n {
        Some(0int)
    } else {
        match name_index(names.drop_first(), n) {
            Some(i) => Some(i + 1),
            None => None,
        }
    }
}

/// Unrolling [`name_index`] past a prefix without a match.
pub proof fn lemma_name_index_skip(names: Seq<Seq<char>>, n: Seq<char>, i: int)
    requires
        0 <= i <= names.len(),
        forall|k: int| 0 <= k < i ==> names[k] != n,
    ensures
        name_index(names, n) == match name_index(names.skip(i), n) {
            Some(j) => Some(i + j),
            None => None::<int>,
        },
    decreases i,
{
    if i > 0 {
        lemma_name_index_skip(names.drop_first(), n, i - 1);
        assert(names.drop_first().skip(i - 1) =~= names.skip(i));
    } else {
        assert(names.skip(0) =~= names);
    }
}

/// Evaluation of a WHERE predicate against one row.
///
/// A leaf looks its column up by name (`ColumnDoesNotExist` if absent),
/// then compares the row's value at that position with the literal
/// (`TypeDoesNotMatch`, carrying the column name, if the kinds differ).
/// `And` and `Or` short-circuit: the right side is only consulted when
/// the left side did not already decide. `Not` flips its operand. A
/// `Bin` node carrying the unary operator is rejected as a type
/// mismatch; the parser never builds one.
pub open spec fn spec_eval(w: WhereV, cols: Seq<ColumnV>, row: Seq<ValueV>) -> Result<
    bool,
    ExecErrorV,
>
    decreases w,
{
    match w {
        WhereV::Constrait(name, op, v) => match name_index(col_names(cols), name) {
            None => Err(ExecErrorV::ColumnDoesNotExist(name)),
            Some(i) => {
                if !(0 <= i < row.len()) {
                    Err(ExecErrorV::TypeDoesNotMatch(name))
                } else {
                    match cmp_holds(op, row[i], v) {
                        None => Err(ExecErrorV::TypeDoesNotMatch(name)),
                        Some(b) => Ok(b),
                    }
                }
            },
        },
        WhereV::Not(inner) => match spec_eval(*inner, cols, row) {
            Ok(b) => Ok(!b),
            Err(e) => Err(e),
        },
        WhereV::Bin(l, bop, r) => match bop {
            BoolOpt::And => match spec_eval(*l, cols, row) {
                Err(e) => Err(e),
                Ok(false) => Ok(false),
                Ok(true) => spec_eval(*r, cols, row),
            },
            BoolOpt::Or => match spec_eval(*l, cols, row) {
                Err(e) => Err(e),
                Ok(true) => Ok(true),
                Ok(false) => spec_eval(*r, cols, row),
            },
            BoolOpt::Not => Err(ExecErrorV::TypeDoesNotMatch(Seq::empty())),
        },
    }
}

/// Law: `And`, `Or` and `Not` follow the standard boolean truth tables,
/// over all four combinations of defined operand results.
pub proof fn lemma_bool_truth_tables(
    l: WhereV,
    r: WhereV,
    cols: Seq<ColumnV>,
    row: Seq<ValueV>,
    bl: bool,
    br: bool,
)
    requires
        spec_eval(l, cols, row) == Ok::<bool, ExecErrorV>(bl),
        spec_eval(r, cols, row) == Ok::<bool, ExecErrorV>(br),
    ensures
        spec_eval(WhereV::Bin(Box::new(l), BoolOpt::And, Box::new(r)), cols, row) == Ok::<
            bool,
            ExecErrorV,
        >(bl && br),
        spec_eval(WhereV::Bin(Box::new(l), BoolOpt::Or, Box::new(r)), cols, row) == Ok::<
            bool,
            ExecErrorV,
        >(bl || br),
        spec_eval(WhereV::Not(Box::new(l)), cols, row) == Ok::<bool, ExecErrorV>(!bl),
{
}

/// Law: the comparators match native integer order on two `Int` values
/// and lexicographic order on two `String` values, and every mixed-kind
/// pairing is undefined — reported, never a silent `false`.
pub proof fn lemma_comparator_semantics(op: CmpOpt, x: int, y: int, s: Seq<char>, t: Seq<char>)
    ensures
        cmp_holds(CmpOpt::Eq, ValueV::Int(x), ValueV::Int(y)) == Some(x == y),
        cmp_holds(CmpOpt::Ne, ValueV::Int(x), ValueV::Int(y)) == Some(x != y),
        cmp_holds(CmpOpt::Lt, ValueV::Int(x), ValueV::Int(y)) == Some(x < y),
        cmp_holds(CmpOpt::Le, ValueV::Int(x), ValueV::Int(y)) == Some(x <= y),
        cmp_holds(CmpOpt::Gt, ValueV::Int(x), ValueV::Int(y)) == Some(x > y),
        cmp_holds(CmpOpt::Ge, ValueV::Int(x), ValueV::Int(y)) == Some(x >= y),
        cmp_holds(CmpOpt::Eq, ValueV::String(s), ValueV::String(t)) == Some(s == t),
        cmp_holds(CmpOpt::Lt, ValueV::String(s), ValueV::String(t)) == Some(lex_lt(s, t)),
        cmp_holds(CmpOpt::Le, ValueV::String(s), ValueV::String(t)) == Some(
            lex_lt(s, t) || s == t,
        ),
        cmp_holds(CmpOpt::Gt, ValueV::String(s), ValueV::String(t)) == Some(lex_lt(t, s)),
        cmp_holds(op, ValueV::Int(x), ValueV::String(s)) is None,
        cmp_holds(op, ValueV::String(s), ValueV::Int(x)) is None,
        cmp_holds(op, ValueV::Unknown, ValueV::Int(x)) is None,
        cmp_holds(op, ValueV::Unknown, ValueV::String(s)) is None,
        cmp_holds(op, ValueV::Int(x), ValueV::Unknown) is None,
        cmp_holds(op, ValueV::String(s), ValueV::Unknown) is None,
        cmp_holds(op, ValueV::Unknown, ValueV::Unknown) is None,
{
}

/// Law: a leaf whose column exists but whose kinds disagree evaluates to
/// the `TypeDoesNotMatch` error carrying that column's name.
pub proof fn lemma_mismatch_is_error(
    name: Seq<char>,
    op: CmpOpt,
    v: ValueV,
    cols: Seq<ColumnV>,
    row: Seq<ValueV>,
    i: int,
)
    requires
        name_index(col_names(cols), name) == Some(i),
        0 <= i < row.len(),
        cmp_holds(op, row[i], v) is None,
    ensures
        spec_eval(WhereV::Constrait(name, op, v), cols, row) == Err::<bool, ExecErrorV>(
            ExecErrorV::TypeDoesNotMatch(name),
        ),
{
}

/// Whether two strings are equal, with the answer tied to their views.
pub fn string_eq(a: &String, b: &String) -> (r: bool)
    ensures
        r == (a@ == b@),
{
    *a == *b
}

/// Strict lexicographic comparison of two strings, by code point.
pub fn string_lt(a: &String, b: &String) -> (r: bool)
    ensures
        r == lex_lt(a@, b@),
{
    let an = a.as_str().unicode_len();
    let bn = b.as_str().unicode_len();
    let mut i: usize = 0;
    proof {
        assert(a@.skip(0) =~= a@);
        assert(b@.skip(0) =~= b@);
    }
    while i < an && i < bn
        invariant
            i <= an,
            i <= bn,
            an == a@.len(),
            bn == b@.len(),
            lex_lt(a@, b@) == lex_lt(a@.skip(i as int), b@.skip(i as int)),
        decreases an - i,
    {
        let ca = a.as_str().get_char(i);
        let cb = b.as_str().get_char(i);
        if ca == cb {
            proof {
                assert(a@.skip(i as int).drop_first() =~= a@.skip(i + 1));
                assert(b@.skip(i as int).drop_first() =~= b@.skip(i + 1));
            }
            i += 1;
        } else {
            let cra = crate::text::char_code(ca);
            let crb = crate::text::char_code(cb);
            proof {
                assert(a@.skip(i as int)[0] == a@[i as int]);
                assert(b@.skip(i as int)[0] == b@[i as int]);
            }
            return cra < crb;
        }
    }
    proof {
        assert(a@.skip(i as int).len() == an - i);
        assert(b@.skip(i as int).len() == bn - i);
    }
    an < bn
}

/// Compare two scalar values under `op`: `Some` only for two `Int`s or
/// two `String`s, `None` on any kind mismatch, exactly [`cmp_holds`].
pub fn compare_values(op: CmpOpt, a: &SqlValue, b: &SqlValue) -> (r: Option<bool>)
    ensures
        r == cmp_holds(op, a@, b@),
{
    match (a, b) {
        (SqlValue::Int(x), SqlValue::Int(y)) => Some(
            match op {
                CmpOpt::Eq => *x == *y,
                CmpOpt::Ne => *x != *y,
                CmpOpt::Lt => *x < *y,
                CmpOpt::Le => *x <= *y,
                CmpOpt::Gt => *x > *y,
                CmpOpt::Ge => *x >= *y,
            },
        ),
        (SqlValue::String(x), SqlValue::String(y)) => Some(
            match op {
                CmpOpt::Eq => string_eq(x, y),
                CmpOpt::Ne => !string_eq(x, y),
                CmpOpt::Lt => string_lt(x, y),
                CmpOpt::Le => string_lt(x, y) || string_eq(x, y),
                CmpOpt::Gt => string_lt(y, x),
                CmpOpt::Ge => string_lt(y, x) || string_eq(x, y),
            },
        ),
        _ => None,
    }
}

/// Find the first column with the given name.
pub fn find_column(cols: &Vec<Column>, name: &String) -> (r: Option<usize>)
    ensures
        match r {
            Some(i) => i < cols@.len() && name_index(col_names(view_cols(cols@)), name@) == Some(
                i as int,
            ),
            None => name_index(col_names(view_cols(cols@)), name@) is None,
        },
{
    let ghost names = col_names(view_cols(cols@));
    let n = cols.len();
    let mut i: usize = 0;
    while i < n
        invariant
            i <= n,
            n == cols@.len(),
            names == col_names(view_cols(cols@)),
            names.len() == n,
            forall|k: int| 0 <= k < i ==> names[k] != name@,
        decreases n - i,
    {
        if string_eq(&cols[i].name, name) {
            proof {
                lemma_name_index_skip(names, name@, i as int);
                assert(names.skip(i as int)[0] == names[i as int]);
                assert(name_index(names.skip(i as int), name@) == Some(0int));
            }
            return Some(i);
        }
        proof {
            assert(names[i as int] == cols@[i as int]@.name);
        }
        i += 1;
    }
    proof {
        lemma_name_index_skip(names, name@, n as int);
        assert(names.skip(n as int) =~= Seq::<Seq<char>>::empty());
    }
    None
}

/// Find the first entry of a name list equal to the given name.
pub fn find_name(names: &Vec<String>, name: &String) -> (r: Option<usize>)
    ensures
        match r {
            Some(i) => i < names@.len() && name_index(view_strings(names@), name@) == Some(
                i as int,
            ),
            None => name_index(view_strings(names@), name@) is None,
        },
{
    let ghost ns = view_strings(names@);
    let n = names.len();
    let mut i: usize = 0;
    while i < n
        invariant
            i <= n,
            n == names@.len(),
            ns == view_strings(names@),
            ns.len() == n,
            forall|k: int| 0 <= k < i ==> ns[k] != name@,
        decreases n - i,
    {
        if string_eq(&names[i], name) {
            proof {
                lemma_name_index_skip(ns, name@, i as int);
                assert(ns.skip(i as int)[0] == ns[i as int]);
                assert(name_index(ns.skip(i as int), name@) == Some(0int));
            }
            return Some(i);
        }
        proof {
            assert(ns[i as int] == names@[i as int]@);
        }
        i += 1;
    }
    proof {
        lemma_name_index_skip(ns, name@, n as int);
        assert(ns.skip(n as int) =~= Seq::<Seq<char>>::empty());
    }
    None
}

/// Evaluate a WHERE predicate against one row, exactly [`spec_eval`].
pub fn eval_where(w: &WhereConstraint, cols: &Vec<Column>, row: &RowValue) -> (r: Result<
    bool,
    QueryExecutionError,
>)
    ensures
        match r {
            Ok(b) => spec_eval(w@, view_cols(cols@), row@) == Ok::<bool, ExecErrorV>(b),
            Err(e) => spec_eval(w@, view_cols(cols@), row@) == Err::<bool, ExecErrorV>(e@),
        },
    decreases w,
{
    match w {
        WhereConstraint::Constrait(name, op, v) => {
            match find_column(cols, name) {
                None => Err(QueryExecutionError::ColumnDoesNotExist(name.clone())),
                Some(i) => {
                    if i >= row.values.len() {
                        Err(QueryExecutionError::TypeDoesNotMatch(name.clone()))
                    } else {
                        match compare_values(*op, &row.values[i], v) {
                            None => Err(QueryExecutionError::TypeDoesNotMatch(name.clone())),
                            Some(b) => {
                                proof {
                                    assert(row@[i as int] == row.values@[i as int]@);
                                }
                                Ok(b)
                            },
                        }
                    }
                },
            }
        },
        WhereConstraint::Not(inner) => match eval_where(inner, cols, row) {
            Ok(b) => Ok(!b),
            Err(e) => Err(e),
        },
        WhereConstraint::Bin(l, bop, r) => match bop {
            BoolOpt::And => match eval_where(l, cols, row) {
                Err(e) => Err(e),
                Ok(false) => Ok(false),
                Ok(true) => eval_where(r, cols, row),
            },
            BoolOpt::Or => match eval_where(l, cols, row) {
                Err(e) => Err(e),
                Ok(true) => Ok(true),
                Ok(false) => eval_where(r, cols, row),
            },
            BoolOpt::Not => Err(QueryExecutionError::TypeDoesNotMatch(String::new())),
        },
    }
}

} // verus!
