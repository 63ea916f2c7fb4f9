//! The statement parser: a recursive-descent reading of the SQL dialect.
//!
//! The grammar is stated as specification functions over `Seq<char>` and
//! a position; every executable parsing function returns exactly what its
//! specification function denotes. Lexical rules: identifiers are one or
//! more ASCII alphanumeric-or-underscore characters; keywords match
//! case-insensitively (ASCII); whitespace — including none — separates
//! tokens and is otherwise insignificant; string literals are
//! single-quoted and hold any character except a single quote; integer
//! literals are optionally-signed decimal digit runs whose value fits in
//! 32 bits. A parse error carries the character offset the failing rule
//! reached and the stack of grammar rules that were being attempted.

use vstd::prelude::*;
use crate::ast::{
    BoolOpt, CmpOpt, Column, ColumnV, CreateStatement, DeleteStatement, DropStatement,
    InsertStatement, RowValue, SelectStatement, SetItem, SqlQuery, SqlType, SqlValue,
    UpdateStatement, ValueV, WhereConstraint, WhereV,
};
use crate::num::{digits_val, is_digit};
use crate::text::{str_to_chars, string_range};

verus! {

/// One grammar rule, named in a parse error's context stack.
#[derive(Debug, Clone, Copy, PartialEq, Eq, Structural)]
pub enum ParseRule {
    Query,
    CreateTable,
    DropTable,
    InsertInto,
    SelectFrom,
    DeleteFrom,
    UpdateSet,
    TableName,
    ColumnName,
    ColumnType,
    ColumnDefinitions,
    InsertColumns,
    ResultColumns,
    RowValueTuple,
    SqlValueLit,
    SetAssignment,
    WhereClause,
    Terminator,
}

/// A structured parse error: the character offset the failing rule
/// reached in the original input, and the grammar rules that were being
/// attempted, innermost first.
#[derive(Debug, PartialEq, Eq)]
pub struct ParseError {
    pub offset: usize,
    pub contexts: Vec<ParseRule>,
}

impl ParseError {
    fn at(offset: usize, rule: ParseRule) -> (r: ParseError)
        ensures
            r.offset == offset,
    {
        ParseError { offset, contexts: vec![rule] }
    }

    fn within(self, rule: ParseRule) -> (r: ParseError)
        ensures
            r.offset == self.offset,
    {
        let mut contexts = self.contexts;
        contexts.push(rule);
        ParseError { offset: self.offset, contexts }
    }
}

/// Whitespace, as the grammar sees it.
pub open spec fn is_ws(c: char) -> bool {
    c == ' ' || c == '\t' || c == '\r' || c == '\n'
}

/// An identifier character: ASCII alphanumeric or underscore.
pub open spec fn is_ident_char(c: char) -> bool {
    ||| 97 <= c as int && c as int <= 122
    ||| 65 <= c as int && c as int <= 90
    ||| 48 <= c as int && c as int <= 57
    ||| c == '_'
}

/// ASCII lower-casing of one character.
pub open spec fn lower_char(c: char) -> char {
    if 65 <= c as int && c as int <= 90 {
        (c as int + 32) as char
    } else {
        c
    }
}

/// The end of the whitespace run starting at `pos`.
pub open spec fn ws_end(s: Seq<char>, pos: int) -> int
    decreases s.len() - pos,
{
    if 0 <= pos < s.len() && is_ws(s[pos]) {
        ws_end(s, pos + 1)
    } else {
        pos
    }
}

/// The end of the identifier-character run starting at `pos`.
pub open spec fn ident_end(s: Seq<char>, pos: int) -> int
    decreases s.len() - pos,
{
    if 0 <= pos < s.len() && is_ident_char(s[pos]) {
        ident_end(s, pos + 1)
    } else {
        pos
    }
}

/// The end of the digit run starting at `pos`.
pub open spec fn digits_end(s: Seq<char>, pos: int) -> int
    decreases s.len() - pos,
{
    if 0 <= pos < s.len() && is_digit(s[pos]) {
        digits_end(s, pos + 1)
    } else {
        pos
    }
}

/// `digits_end` stays within the input, never moves backwards, and the
/// run it delimits is all digits.
pub proof fn lemma_digits_end_bounds(s: Seq<char>, pos: int)
    requires
        0 <= pos <= s.len(),
    ensures
        pos <= digits_end(s, pos) <= s.len(),
        forall|k: int| pos <= k < digits_end(s, pos) ==> is_digit(#[trigger] s[k]),
    decreases s.len() - pos,
{
    if pos < s.len() && is_digit(s[pos]) {
        lemma_digits_end_bounds(s, pos + 1);
    }
}

/// One or more whitespace characters: the position after them, or `None`
/// when none is present.
pub open spec fn spec_ws1(s: Seq<char>, pos: int) -> Option<int> {
    if ws_end(s, pos) > pos {
        Some(ws_end(s, pos))
    } else {
        None
    }
}

/// An identifier: one or more alphanumeric-or-underscore characters.
pub open spec fn spec_ident(s: Seq<char>, pos: int) -> Option<(Seq<char>, int)> {
    let e = ident_end(s, pos);
    if e > pos {
        Some((s.subrange(pos, e), e))
    } else {
        None
    }
}

/// A case-insensitive keyword match (the keyword itself is lower case).
pub open spec fn spec_kw(s: Seq<char>, pos: int, kw: Seq<char>) -> Option<int> {
    if pos >= 0 && pos + kw.len() <= s.len() && (forall|i: int|
        0 <= i < kw.len() ==> lower_char(#[trigger] s[pos + i]) == kw[i]) {
        Some(pos + kw.len())
    } else {
        None
    }
}

/// A single expected character.
pub open spec fn spec_char(s: Seq<char>, pos: int, c: char) -> Option<int> {
    if 0 <= pos < s.len() && s[pos] == c {
        Some(pos + 1)
    } else {
        None
    }
}

/// Skip whitespace: exactly [`ws_end`].
fn skip_ws(s: &Vec<char>, pos: usize) -> (r: usize)
    requires
        pos <= s@.len(),
    ensures
        r as int == ws_end(s@, pos as int),
        pos <= r <= s@.len(),
{
    let mut i = pos;
    while i < s.len() && (s[i] == ' ' || s[i] == '\t' || s[i] == '\r' || s[i] == '\n')
        invariant
            pos <= i <= s@.len(),
            ws_end(s@, pos as int) == ws_end(s@, i as int),
        decreases s@.len() - i,
    {
        i += 1;
    }
    i
}

/// Find the end of the identifier run: exactly [`ident_end`].
fn scan_ident(s: &Vec<char>, pos: usize) -> (r: usize)
    requires
        pos <= s@.len(),
    ensures
        r as int == ident_end(s@, pos as int),
        pos <= r <= s@.len(),
{
    let mut i = pos;
    while i < s.len() && ident_char_at(s, i)
        invariant
            pos <= i <= s@.len(),
            ident_end(s@, pos as int) == ident_end(s@, i as int),
        decreases s@.len() - i,
    {
        i += 1;
    }
    i
}

/// Is `s[i]` an identifier character?
fn ident_char_at(s: &Vec<char>, i: usize) -> (r: bool)
    requires
        i < s@.len(),
    ensures
        r == is_ident_char(s@[i as int]),
{
    let c = s[i];
    let n = crate::text::char_code(c);
    (97 <= n && n <= 122) || (65 <= n && n <= 90) || (48 <= n && n <= 57) || c == '_'
}

/// Match a lower-case keyword case-insensitively: exactly [`spec_kw`].
fn match_kw(s: &Vec<char>, pos: usize, kw: &Vec<char>) -> (r: Option<usize>)
    requires
        pos <= s@.len(),
    ensures
        match r {
            Some(p) => spec_kw(s@, pos as int, kw@) == Some(p as int) && pos <= p <= s@.len(),
            None => spec_kw(s@, pos as int, kw@) is None,
        },
{
    let n = kw.len();
    let len = s.len();
    if len - pos < n {
        return None;
    }
    let mut i: usize = 0;
    while i < n
        invariant
            i <= n,
            n == kw@.len(),
            len == s@.len(),
            pos + n <= len,
            forall|k: int| 0 <= k < i ==> lower_char(#[trigger] s@[pos + k]) == kw@[k],
        decreases n - i,
    {
        let c = s[pos + i];
        let k = kw[i];
        let cc = crate::text::char_code(c);
        let kc = crate::text::char_code(k);
        let lc = if 65 <= cc && cc <= 90 {
            cc + 32
        } else {
            cc
        };
        proof {
            if 65 <= cc && cc <= 90 {
                assert(lower_char(c) == ((c as int + 32) as char));
                assert(((c as int + 32) as char) as int == c as int + 32);
            }
            assert(lower_char(c) as int == lc as int);
        }
        if lc != kc {
            proof {
                assert(lower_char(s@[pos + i]) != kw@[i as int]);
            }
            return None;
        }
        proof {
            assert(lower_char(s@[pos + i]) as int == kw@[i as int] as int);
            assert(lower_char(s@[pos + i]) == kw@[i as int]);
        }
        i += 1;
    }
    Some(pos + n)
}

/// Match a single expected character: exactly [`spec_char`].
fn match_char(s: &Vec<char>, pos: usize, c: char) -> (r: Option<usize>)
    requires
        pos <= s@.len(),
    ensures
        match r {
            Some(p) => spec_char(s@, pos as int, c) == Some(p as int) && p <= s@.len(),
            None => spec_char(s@, pos as int, c) is None,
        },
{
    if pos < s.len() && s[pos] == c {
        Some(pos + 1)
    } else {
        None
    }
}

/// The position of the next single quote at or after `pos` (or the end
/// of the input).
pub open spec fn quote_end(s: Seq<char>, pos: int) -> int
    decreases s.len() - pos,
{
    if 0 <= pos < s.len() && s[pos] != '\'' {
        quote_end(s, pos + 1)
    } else {
        pos
    }
}

/// A string literal: single-quoted, holding any characters but a single
/// quote, which must be closed.
pub open spec fn spec_string_lit(s: Seq<char>, pos: int) -> Option<(Seq<char>, int)> {
    match spec_char(s, pos, '\'') {
        None => None,
        Some(p1) => {
            let e = quote_end(s, p1);
            if e < s.len() {
                Some((s.subrange(p1, e), e + 1))
            } else {
                None
            }
        },
    }
}

/// An integer literal: an optional sign, then one or more digits, whose
/// value fits in 32 bits.
pub open spec fn spec_int_lit(s: Seq<char>, pos: int) -> Option<(int, int)> {
    let signed = 0 <= pos < s.len() && (s[pos] == '-' || s[pos] == '+');
    let neg = 0 <= pos < s.len() && s[pos] == '-';
    let d0 = if signed {
        pos + 1
    } else {
        pos
    };
    let e = digits_end(s, d0);
    if e > d0 {
        let v = if neg {
            -digits_val(s.subrange(d0, e))
        } else {
            digits_val(s.subrange(d0, e))
        };
        if -2147483648 <= v <= 2147483647 {
            Some((v, e))
        } else {
            None
        }
    } else {
        None
    }
}

/// A scalar literal: an integer is tried before a string, so a bare
/// digit run is never read as text.
pub open spec fn spec_value(s: Seq<char>, pos: int) -> Option<(ValueV, int)> {
    match spec_int_lit(s, pos) {
        Some((v, p)) => Some((ValueV::Int(v), p)),
        None => match spec_string_lit(s, pos) {
            Some((t, p)) => Some((ValueV::String(t), p)),
            None => None,
        },
    }
}

/// A comparison operator, longest token first where one prefixes
/// another.
pub open spec fn spec_cmp(s: Seq<char>, pos: int) -> Option<(CmpOpt, int)> {
    if spec_char(s, pos, '=') is Some {
        Some((CmpOpt::Eq, pos + 1))
    } else if 0 <= pos && pos + 2 <= s.len() && s[pos] == '<' && s[pos + 1] == '>' {
        Some((CmpOpt::Ne, pos + 2))
    } else if 0 <= pos && pos + 2 <= s.len() && s[pos] == '<' && s[pos + 1] == '=' {
        Some((CmpOpt::Le, pos + 2))
    } else if spec_char(s, pos, '<') is Some {
        Some((CmpOpt::Lt, pos + 1))
    } else if 0 <= pos && pos + 2 <= s.len() && s[pos] == '>' && s[pos + 1] == '=' {
        Some((CmpOpt::Ge, pos + 2))
    } else if spec_char(s, pos, '>') is Some {
        Some((CmpOpt::Gt, pos + 1))
    } else {
        None
    }
}

/// Find the end of the digit run: exactly [`digits_end`].
fn scan_digits(s: &Vec<char>, pos: usize) -> (r: usize)
    requires
        pos <= s@.len(),
    ensures
        r as int == digits_end(s@, pos as int),
        pos <= r <= s@.len(),
{
    let mut i = pos;
    while i < s.len() && digit_char_at(s, i)
        invariant
            pos <= i <= s@.len(),
            digits_end(s@, pos as int) == digits_end(s@, i as int),
        decreases s@.len() - i,
    {
        i += 1;
    }
    i
}

/// Is `s[i]` a decimal digit?
fn digit_char_at(s: &Vec<char>, i: usize) -> (r: bool)
    requires
        i < s@.len(),
    ensures
        r == is_digit(s@[i as int]),
{
    let n = crate::text::char_code(s[i]);
    48 <= n && n <= 57
}

/// Parse an identifier: exactly [`spec_ident`].
fn p_ident(s: &Vec<char>, pos: usize) -> (r: Option<(String, usize)>)
    requires
        pos <= s@.len(),
    ensures
        match r {
            Some((id, p)) => spec_ident(s@, pos as int) == Some((id@, p as int)) && pos < p
                <= s@.len(),
            None => spec_ident(s@, pos as int) is None,
        },
{
    let e = scan_ident(s, pos);
    if e > pos {
        let id = string_range(s, pos, e);
        Some((id, e))
    } else {
        None
    }
}

/// Parse a string literal: exactly [`spec_string_lit`].
fn p_string_lit(s: &Vec<char>, pos: usize) -> (r: Option<(String, usize)>)
    requires
        pos <= s@.len(),
    ensures
        match r {
            Some((t, p)) => spec_string_lit(s@, pos as int) == Some((t@, p as int)) && pos < p
                <= s@.len(),
            None => spec_string_lit(s@, pos as int) is None,
        },
{
    if !(pos < s.len() && s[pos] == '\'') {
        return None;
    }
    let p1 = pos + 1;
    let mut e = p1;
    while e < s.len() && s[e] != '\''
        invariant
            p1 <= e <= s@.len(),
            quote_end(s@, p1 as int) == quote_end(s@, e as int),
        decreases s@.len() - e,
    {
        e += 1;
    }
    if e < s.len() {
        let t = string_range(s, p1, e);
        Some((t, e + 1))
    } else {
        None
    }
}

/// Parse an integer literal: exactly [`spec_int_lit`].
fn p_int_lit(s: &Vec<char>, pos: usize) -> (r: Option<(i32, usize)>)
    requires
        pos <= s@.len(),
    ensures
        match r {
            Some((v, p)) => spec_int_lit(s@, pos as int) == Some((v as int, p as int)) && pos < p
                <= s@.len(),
            None => spec_int_lit(s@, pos as int) is None,
        },
{
    let len = s.len();
    let signed = pos < len && (s[pos] == '-' || s[pos] == '+');
    let d0 = if signed {
        pos + 1
    } else {
        pos
    };
    if d0 > len {
        proof {
            assert(digits_end(s@, d0 as int) == d0);
        }
        return None;
    }
    let e = scan_digits(s, d0);
    if e == d0 {
        return None;
    }
    let lit = crate::text::chars_range(s, pos, e);
    proof {
        lemma_digits_end_bounds(s@, d0 as int);
        let sub = s@.subrange(pos as int, e as int);
        let ds = s@.subrange(d0 as int, e as int);
        if signed {
            assert(sub[0] == s@[pos as int]);
            assert(sub.subrange(1, sub.len() as int) =~= ds);
        } else {
            assert(sub =~= ds);
            assert(is_digit(sub[0]));
            assert(sub[0] != '-' && sub[0] != '+');
        }
        assert(crate::num::all_digits(ds));
        assert(ds.len() >= 1);
    }
    match crate::num::parse_i32(&lit) {
        Some(v) => Some((v, e)),
        None => None,
    }
}

/// Parse a scalar literal: exactly [`spec_value`].
fn p_value(s: &Vec<char>, pos: usize) -> (r: Option<(SqlValue, usize)>)
    requires
        pos <= s@.len(),
    ensures
        match r {
            Some((v, p)) => spec_value(s@, pos as int) == Some((v@, p as int)) && pos < p
                <= s@.len(),
            None => spec_value(s@, pos as int) is None,
        },
{
    match p_int_lit(s, pos) {
        Some((v, p)) => Some((SqlValue::Int(v), p)),
        None => match p_string_lit(s, pos) {
            Some((t, p)) => Some((SqlValue::String(t), p)),
            None => None,
        },
    }
}

/// Parse a comparison operator: exactly [`spec_cmp`].
fn p_cmp(s: &Vec<char>, pos: usize) -> (r: Option<(CmpOpt, usize)>)
    requires
        pos <= s@.len(),
    ensures
        match r {
            Some((op, p)) => spec_cmp(s@, pos as int) == Some((op, p as int)) && pos < p
                <= s@.len(),
            None => spec_cmp(s@, pos as int) is None,
        },
{
    let len = s.len();
    if pos < len && s[pos] == '=' {
        Some((CmpOpt::Eq, pos + 1))
    } else if pos < len && pos + 1 < len && s[pos] == '<' && s[pos + 1] == '>' {
        Some((CmpOpt::Ne, pos + 2))
    } else if pos < len && pos + 1 < len && s[pos] == '<' && s[pos + 1] == '=' {
        Some((CmpOpt::Le, pos + 2))
    } else if pos < len && s[pos] == '<' {
        Some((CmpOpt::Lt, pos + 1))
    } else if pos < len && pos + 1 < len && s[pos] == '>' && s[pos + 1] == '=' {
        Some((CmpOpt::Ge, pos + 2))
    } else if pos < len && s[pos] == '>' {
        Some((CmpOpt::Gt, pos + 1))
    } else {
        None
    }
}

/// A column type: `string` or `int`, case-insensitively. `Unknown` is
/// not a valid declaration target.
pub open spec fn spec_sqltype(s: Seq<char>, pos: int) -> Option<(SqlType, int)> {
    match spec_kw(s, pos, "string"@) {
        Some(p) => Some((SqlType::String, p)),
        None => match spec_kw(s, pos, "int"@) {
            Some(p) => Some((SqlType::Int, p)),
            None => None,
        },
    }
}

/// A column definition: a name, whitespace, a type.
pub open spec fn spec_column(s: Seq<char>, pos: int) -> Option<(ColumnV, int)> {
    match spec_ident(s, pos) {
        None => None,
        Some((name, p1)) => match spec_ws1(s, p1) {
            None => None,
            Some(p2) => match spec_sqltype(s, p2) {
                None => None,
                Some((t, p3)) => Some((ColumnV { name, type_info: t }, p3)),
            },
        },
    }
}

/// A boolean operator joining constraints.
pub open spec fn spec_boolop(s: Seq<char>, pos: int) -> Option<(BoolOpt, int)> {
    match spec_kw(s, pos, "and"@) {
        Some(p) => Some((BoolOpt::And, p)),
        None => match spec_kw(s, pos, "or"@) {
            Some(p) => Some((BoolOpt::Or, p)),
            None => None,
        },
    }
}

/// A leaf constraint: column, comparator, literal, with optional spacing.
pub open spec fn spec_constrait(s: Seq<char>, pos: int) -> Option<(WhereV, int)> {
    let p0 = ws_end(s, pos);
    match spec_ident(s, p0) {
        None => None,
        Some((col, p1)) => {
            let p2 = ws_end(s, p1);
            match spec_cmp(s, p2) {
                None => None,
                Some((op, p3)) => {
                    let p4 = ws_end(s, p3);
                    match spec_value(s, p4) {
                        None => None,
                        Some((v, p5)) => Some((WhereV::Constrait(col, op, v), p5)),
                    }
                },
            }
        },
    }
}

/// A predicate tree, right-associative: `NOT` binds one leaf; otherwise
/// a leaf optionally continues with whitespace, a boolean operator, and
/// another predicate. Once the operator is read, the right side is
/// committed: its failure fails the whole clause rather than falling
/// back to the bare leaf.
pub open spec fn spec_constraits(s: Seq<char>, pos: int) -> Option<(WhereV, int)>
    decreases s.len() - pos,
{
    let p0 = ws_end(s, pos);
    if spec_kw(s, p0, "not"@) is Some {
        let p1 = spec_kw(s, p0, "not"@)->0;
        match spec_constrait(s, p1) {
            None => None,
            Some((c, p2)) => Some((WhereV::Not(Box::new(c)), p2)),
        }
    } else {
        match spec_constrait(s, pos) {
            None => None,
            Some((c, p1)) => match spec_ws1(s, p1) {
                None => Some((c, p1)),
                Some(p2) => match spec_boolop(s, p2) {
                    None => Some((c, p1)),
                    Some((op, p3)) => if pos < p3 <= s.len() {
                        match spec_constraits(s, p3) {
                            None => None,
                            Some((rhs, p4)) => Some(
                                (WhereV::Bin(Box::new(c), op, Box::new(rhs)), p4),
                            ),
                        }
                    } else {
                        None
                    },
                },
            },
        }
    }
}

/// An optional WHERE clause: the keyword, then the predicate tree.
pub open spec fn spec_where(s: Seq<char>, pos: int) -> Option<(WhereV, int)> {
    let p0 = ws_end(s, pos);
    match spec_kw(s, p0, "where"@) {
        None => None,
        Some(p1) => spec_constraits(s, p1),
    }
}

/// Parse a column type: exactly [`spec_sqltype`].
fn p_sqltype(s: &Vec<char>, pos: usize) -> (r: Option<(SqlType, usize)>)
    requires
        pos <= s@.len(),
    ensures
        match r {
            Some((t, p)) => spec_sqltype(s@, pos as int) == Some((t, p as int)) && pos < p
                <= s@.len(),
            None => spec_sqltype(s@, pos as int) is None,
        },
{
    let kw_string = str_to_chars("string");
    let kw_int = str_to_chars("int");
    proof {
        reveal_strlit("string");
        reveal_strlit("int");
    }
    match match_kw(s, pos, &kw_string) {
        Some(p) => Some((SqlType::String, p)),
        None => match match_kw(s, pos, &kw_int) {
            Some(p) => Some((SqlType::Int, p)),
            None => None,
        },
    }
}

/// Parse a column definition: exactly [`spec_column`].
fn p_column(s: &Vec<char>, pos: usize) -> (r: Option<(Column, usize)>)
    requires
        pos <= s@.len(),
    ensures
        match r {
            Some((c, p)) => spec_column(s@, pos as int) == Some((c@, p as int)) && pos < p
                <= s@.len(),
            None => spec_column(s@, pos as int) is None,
        },
{
    match p_ident(s, pos) {
        None => None,
        Some((name, p1)) => {
            let p2 = skip_ws(s, p1);
            if p2 == p1 {
                return None;
            }
            match p_sqltype(s, p2) {
                None => None,
                Some((t, p3)) => Some((Column { name, type_info: t }, p3)),
            }
        },
    }
}

/// Parse a boolean operator: exactly [`spec_boolop`].
fn p_boolop(s: &Vec<char>, pos: usize) -> (r: Option<(BoolOpt, usize)>)
    requires
        pos <= s@.len(),
    ensures
        match r {
            Some((op, p)) => spec_boolop(s@, pos as int) == Some((op, p as int)) && pos < p
                <= s@.len(),
            None => spec_boolop(s@, pos as int) is None,
        },
{
    let kw_and = str_to_chars("and");
    let kw_or = str_to_chars("or");
    proof {
        reveal_strlit("and");
        reveal_strlit("or");
    }
    match match_kw(s, pos, &kw_and) {
        Some(p) => Some((BoolOpt::And, p)),
        None => match match_kw(s, pos, &kw_or) {
            Some(p) => Some((BoolOpt::Or, p)),
            None => None,
        },
    }
}

/// Parse a leaf constraint: exactly [`spec_constrait`].
fn p_constrait(s: &Vec<char>, pos: usize) -> (r: Option<(WhereConstraint, usize)>)
    requires
        pos <= s@.len(),
    ensures
        match r {
            Some((c, p)) => spec_constrait(s@, pos as int) == Some((c@, p as int)) && pos < p
                <= s@.len(),
            None => spec_constrait(s@, pos as int) is None,
        },
{
    let p0 = skip_ws(s, pos);
    match p_ident(s, p0) {
        None => None,
        Some((col, p1)) => {
            let p2 = skip_ws(s, p1);
            match p_cmp(s, p2) {
                None => None,
                Some((op, p3)) => {
                    let p4 = skip_ws(s, p3);
                    match p_value(s, p4) {
                        None => None,
                        Some((v, p5)) => Some((WhereConstraint::Constrait(col, op, v), p5)),
                    }
                },
            }
        },
    }
}

/// Parse a predicate tree: exactly [`spec_constraits`].
fn p_constraits(s: &Vec<char>, pos: usize) -> (r: Option<(WhereConstraint, usize)>)
    requires
        pos <= s@.len(),
    ensures
        match r {
            Some((c, p)) => spec_constraits(s@, pos as int) == Some((c@, p as int)) && pos < p
                <= s@.len(),
            None => spec_constraits(s@, pos as int) is None,
        },
    decreases s@.len() - pos,
{
    let kw_not = str_to_chars("not");
    proof {
        reveal_strlit("not");
    }
    let p0 = skip_ws(s, pos);
    match match_kw(s, p0, &kw_not) {
        Some(p1) => {
            match p_constrait(s, p1) {
                None => None,
                Some((c, p2)) => Some((WhereConstraint::Not(Box::new(c)), p2)),
            }
        },
        None => {
            match p_constrait(s, pos) {
                None => None,
                Some((c, p1)) => {
                    let p2 = skip_ws(s, p1);
                    if p2 == p1 {
                        return Some((c, p1));
                    }
                    match p_boolop(s, p2) {
                        None => Some((c, p1)),
                        Some((op, p3)) => {
                            match p_constraits(s, p3) {
                                None => None,
                                Some((rhs, p4)) => Some(
                                    (WhereConstraint::Bin(Box::new(c), op, Box::new(rhs)), p4),
                                ),
                            }
                        },
                    }
                },
            }
        },
    }
}

/// Parse an optional WHERE clause: the clause and the position after it,
/// or no clause and the position unmoved, exactly as [`spec_where`]
/// succeeds or fails.
fn p_where_opt(s: &Vec<char>, pos: usize) -> (r: (Option<WhereConstraint>, usize))
    requires
        pos <= s@.len(),
    ensures
        match r.0 {
            Some(w) => spec_where(s@, pos as int) == Some((w@, r.1 as int)) && pos < r.1
                <= s@.len(),
            None => spec_where(s@, pos as int) is None && r.1 == pos,
        },
{
    let kw_where = str_to_chars("where");
    proof {
        reveal_strlit("where");
    }
    let p0 = skip_ws(s, pos);
    match match_kw(s, p0, &kw_where) {
        None => (None, pos),
        Some(p1) => match p_constraits(s, p1) {
            None => (None, pos),
            Some((w, p2)) => (Some(w), p2),
        },
    }
}

/// A comma-separated list of column definitions: one or more, each
/// separated by a comma with optional whitespace around it. The list is
/// greedy: it ends before the first separator or item that does not
/// parse.
pub open spec fn spec_column_list(s: Seq<char>, pos: int) -> Option<(Seq<ColumnV>, int)>
    decreases s.len() - pos,
{
    match spec_column(s, pos) {
        None => None,
        Some((c, p1)) => {
            let q = ws_end(s, p1);
            if spec_char(s, q, ',') is Some && pos < ws_end(s, q + 1) <= s.len() {
                match spec_column_list(s, ws_end(s, q + 1)) {
                    None => Some((seq![c], p1)),
                    Some((rest, p2)) => Some((seq![c] + rest, p2)),
                }
            } else {
                Some((seq![c], p1))
            }
        },
    }
}

/// Parse a column-definition list: exactly [`spec_column_list`].
fn p_column_list(s: &Vec<char>, pos: usize) -> (r: Option<(Vec<Column>, usize)>)
    requires
        pos <= s@.len(),
    ensures
        match r {
            Some((cs, p)) => spec_column_list(s@, pos as int) == Some(
                (crate::ast::view_cols(cs@), p as int),
            ) && pos < p <= s@.len(),
            None => spec_column_list(s@, pos as int) is None,
        },
    decreases s@.len() - pos,
{
    match p_column(s, pos) {
        None => None,
        Some((c, p1)) => {
            let q = skip_ws(s, p1);
            if let Some(q1) = match_char(s, q, ',') {
                let r0 = skip_ws(s, q1);
                match p_column_list(s, r0) {
                    None => {
                        let one = vec![c];
                        proof {
                            assert(crate::ast::view_cols(one@) =~= seq![c@]);
                        }
                        Some((one, p1))
                    },
                    Some((rest, p2)) => {
                        let mut cs = vec![c];
                        let mut rest = rest;
                        let ghost restv = rest@;
                        cs.append(&mut rest);
                        proof {
                            assert(crate::ast::view_cols(cs@) =~= seq![cs@[0]@] + crate::ast::view_cols(restv));
                        }
                        Some((cs, p2))
                    },
                }
            } else {
                let one = vec![c];
                proof {
                    assert(crate::ast::view_cols(one@) =~= seq![c@]);
                }
                Some((one, p1))
            }
        },
    }
}

/// A comma-separated list of identifiers.
pub open spec fn spec_ident_list(s: Seq<char>, pos: int) -> Option<(Seq<Seq<char>>, int)>
    decreases s.len() - pos,
{
    match spec_ident(s, pos) {
        None => None,
        Some((id, p1)) => {
            let q = ws_end(s, p1);
            if spec_char(s, q, ',') is Some && pos < ws_end(s, q + 1) <= s.len() {
                match spec_ident_list(s, ws_end(s, q + 1)) {
                    None => Some((seq![id], p1)),
                    Some((rest, p2)) => Some((seq![id] + rest, p2)),
                }
            } else {
                Some((seq![id], p1))
            }
        },
    }
}

/// Parse an identifier list: exactly [`spec_ident_list`].
fn p_ident_list(s: &Vec<char>, pos: usize) -> (r: Option<(Vec<String>, usize)>)
    requires
        pos <= s@.len(),
    ensures
        match r {
            Some((ids, p)) => spec_ident_list(s@, pos as int) == Some(
                (crate::ast::view_strings(ids@), p as int),
            ) && pos < p <= s@.len(),
            None => spec_ident_list(s@, pos as int) is None,
        },
    decreases s@.len() - pos,
{
    match p_ident(s, pos) {
        None => None,
        Some((id, p1)) => {
            let q = skip_ws(s, p1);
            if let Some(q1) = match_char(s, q, ',') {
                let r0 = skip_ws(s, q1);
                match p_ident_list(s, r0) {
                    None => {
                        let one = vec![id];
                        proof {
                            assert(crate::ast::view_strings(one@) =~= seq![one@[0]@]);
                        }
                        Some((one, p1))
                    },
                    Some((rest, p2)) => {
                        let mut ids = vec![id];
                        let mut rest = rest;
                        let ghost restv = rest@;
                        ids.append(&mut rest);
                        proof {
                            assert(crate::ast::view_strings(ids@) =~= seq![ids@[0]@]
                                + crate::ast::view_strings(restv));
                        }
                        Some((ids, p2))
                    },
                }
            } else {
                let one = vec![id];
                proof {
                    assert(crate::ast::view_strings(one@) =~= seq![one@[0]@]);
                }
                Some((one, p1))
            }
        },
    }
}

/// A comma-separated list of scalar literals.
pub open spec fn spec_value_list(s: Seq<char>, pos: int) -> Option<(Seq<ValueV>, int)>
    decreases s.len() - pos,
{
    match spec_value(s, pos) {
        None => None,
        Some((v, p1)) => {
            let q = ws_end(s, p1);
            if spec_char(s, q, ',') is Some && pos < ws_end(s, q + 1) <= s.len() {
                match spec_value_list(s, ws_end(s, q + 1)) {
                    None => Some((seq![v], p1)),
                    Some((rest, p2)) => Some((seq![v] + rest, p2)),
                }
            } else {
                Some((seq![v], p1))
            }
        },
    }
}

/// Parse a literal list: exactly [`spec_value_list`].
fn p_value_list(s: &Vec<char>, pos: usize) -> (r: Option<(Vec<SqlValue>, usize)>)
    requires
        pos <= s@.len(),
    ensures
        match r {
            Some((vs, p)) => spec_value_list(s@, pos as int) == Some(
                (vs@.map_values(|v: SqlValue| v@), p as int),
            ) && pos < p <= s@.len(),
            None => spec_value_list(s@, pos as int) is None,
        },
    decreases s@.len() - pos,
{
    match p_value(s, pos) {
        None => None,
        Some((v, p1)) => {
            let q = skip_ws(s, p1);
            if let Some(q1) = match_char(s, q, ',') {
                let r0 = skip_ws(s, q1);
                match p_value_list(s, r0) {
                    None => {
                        let one = vec![v];
                        proof {
                            assert(one@.map_values(|x: SqlValue| x@) =~= seq![one@[0]@]);
                        }
                        Some((one, p1))
                    },
                    Some((rest, p2)) => {
                        let mut vs = vec![v];
                        let mut rest = rest;
                        let ghost restv = rest@;
                        vs.append(&mut rest);
                        proof {
                            assert(vs@.map_values(|x: SqlValue| x@) =~= seq![vs@[0]@]
                                + restv.map_values(|x: SqlValue| x@));
                        }
                        Some((vs, p2))
                    },
                }
            } else {
                let one = vec![v];
                proof {
                    assert(one@.map_values(|x: SqlValue| x@) =~= seq![one@[0]@]);
                }
                Some((one, p1))
            }
        },
    }
}

/// One projection item: an identifier, or the `*` wildcard.
pub open spec fn spec_result_item(s: Seq<char>, pos: int) -> Option<(Seq<char>, int)> {
    match spec_ident(s, pos) {
        Some((id, p)) => Some((id, p)),
        None => match spec_char(s, pos, '*') {
            Some(p) => Some(("*"@, p)),
            None => None,
        },
    }
}

/// A comma-separated projection list.
pub open spec fn spec_result_list(s: Seq<char>, pos: int) -> Option<(Seq<Seq<char>>, int)>
    decreases s.len() - pos,
{
    match spec_result_item(s, pos) {
        None => None,
        Some((id, p1)) => {
            let q = ws_end(s, p1);
            if spec_char(s, q, ',') is Some && pos < ws_end(s, q + 1) <= s.len() {
                match spec_result_list(s, ws_end(s, q + 1)) {
                    None => Some((seq![id], p1)),
                    Some((rest, p2)) => Some((seq![id] + rest, p2)),
                }
            } else {
                Some((seq![id], p1))
            }
        },
    }
}

/// Parse one projection item: exactly [`spec_result_item`].
fn p_result_item(s: &Vec<char>, pos: usize) -> (r: Option<(String, usize)>)
    requires
        pos <= s@.len(),
    ensures
        match r {
            Some((id, p)) => spec_result_item(s@, pos as int) == Some((id@, p as int)) && pos < p
                <= s@.len(),
            None => spec_result_item(s@, pos as int) is None,
        },
{
    match p_ident(s, pos) {
        Some((id, p)) => Some((id, p)),
        None => match match_char(s, pos, '*') {
            Some(p) => {
                let star = String::from_str("*");
                Some((star, p))
            },
            None => None,
        },
    }
}

/// Parse a projection list: exactly [`spec_result_list`].
fn p_result_list(s: &Vec<char>, pos: usize) -> (r: Option<(Vec<String>, usize)>)
    requires
        pos <= s@.len(),
    ensures
        match r {
            Some((ids, p)) => spec_result_list(s@, pos as int) == Some(
                (crate::ast::view_strings(ids@), p as int),
            ) && pos < p <= s@.len(),
            None => spec_result_list(s@, pos as int) is None,
        },
    decreases s@.len() - pos,
{
    match p_result_item(s, pos) {
        None => None,
        Some((id, p1)) => {
            let q = skip_ws(s, p1);
            if let Some(q1) = match_char(s, q, ',') {
                let r0 = skip_ws(s, q1);
                match p_result_list(s, r0) {
                    None => {
                        let one = vec![id];
                        proof {
                            assert(crate::ast::view_strings(one@) =~= seq![one@[0]@]);
                        }
                        Some((one, p1))
                    },
                    Some((rest, p2)) => {
                        let mut ids = vec![id];
                        let mut rest = rest;
                        let ghost restv = rest@;
                        ids.append(&mut rest);
                        proof {
                            assert(crate::ast::view_strings(ids@) =~= seq![ids@[0]@]
                                + crate::ast::view_strings(restv));
                        }
                        Some((ids, p2))
                    },
                }
            } else {
                let one = vec![id];
                proof {
                    assert(crate::ast::view_strings(one@) =~= seq![one@[0]@]);
                }
                Some((one, p1))
            }
        },
    }
}

/// One SET assignment: a column name, `=`, a literal, with optional
/// spacing.
pub open spec fn spec_set_item(s: Seq<char>, pos: int) -> Option<(crate::ast::SetItemV, int)> {
    match spec_ident(s, pos) {
        None => None,
        Some((col, p1)) => {
            let p2 = ws_end(s, p1);
            match spec_char(s, p2, '=') {
                None => None,
                Some(p3) => {
                    let p4 = ws_end(s, p3);
                    match spec_value(s, p4) {
                        None => None,
                        Some((v, p5)) => Some((crate::ast::SetItemV { column: col, value: v }, p5)),
                    }
                },
            }
        },
    }
}

/// A comma-separated list of SET assignments.
pub open spec fn spec_set_list(s: Seq<char>, pos: int) -> Option<(Seq<crate::ast::SetItemV>, int)>
    decreases s.len() - pos,
{
    match spec_set_item(s, pos) {
        None => None,
        Some((it, p1)) => {
            let q = ws_end(s, p1);
            if spec_char(s, q, ',') is Some && pos < ws_end(s, q + 1) <= s.len() {
                match spec_set_list(s, ws_end(s, q + 1)) {
                    None => Some((seq![it], p1)),
                    Some((rest, p2)) => Some((seq![it] + rest, p2)),
                }
            } else {
                Some((seq![it], p1))
            }
        },
    }
}

/// Parse one SET assignment: exactly [`spec_set_item`].
fn p_set_item(s: &Vec<char>, pos: usize) -> (r: Option<(SetItem, usize)>)
    requires
        pos <= s@.len(),
    ensures
        match r {
            Some((it, p)) => spec_set_item(s@, pos as int) == Some((it@, p as int)) && pos < p
                <= s@.len(),
            None => spec_set_item(s@, pos as int) is None,
        },
{
    match p_ident(s, pos) {
        None => None,
        Some((col, p1)) => {
            let p2 = skip_ws(s, p1);
            match match_char(s, p2, '=') {
                None => None,
                Some(p3) => {
                    let p4 = skip_ws(s, p3);
                    match p_value(s, p4) {
                        None => None,
                        Some((v, p5)) => Some((SetItem { column: col, value: v }, p5)),
                    }
                },
            }
        },
    }
}

/// Parse a SET-assignment list: exactly [`spec_set_list`].
fn p_set_list(s: &Vec<char>, pos: usize) -> (r: Option<(Vec<SetItem>, usize)>)
    requires
        pos <= s@.len(),
    ensures
        match r {
            Some((its, p)) => spec_set_list(s@, pos as int) == Some(
                (crate::ast::view_sets(its@), p as int),
            ) && pos < p <= s@.len(),
            None => spec_set_list(s@, pos as int) is None,
        },
    decreases s@.len() - pos,
{
    match p_set_item(s, pos) {
        None => None,
        Some((it, p1)) => {
            let q = skip_ws(s, p1);
            if let Some(q1) = match_char(s, q, ',') {
                let r0 = skip_ws(s, q1);
                match p_set_list(s, r0) {
                    None => {
                        let one = vec![it];
                        proof {
                            assert(crate::ast::view_sets(one@) =~= seq![one@[0]@]);
                        }
                        Some((one, p1))
                    },
                    Some((rest, p2)) => {
                        let mut its = vec![it];
                        let mut rest = rest;
                        let ghost restv = rest@;
                        its.append(&mut rest);
                        proof {
                            assert(crate::ast::view_sets(its@) =~= seq![its@[0]@]
                                + crate::ast::view_sets(restv));
                        }
                        Some((its, p2))
                    },
                }
            } else {
                let one = vec![it];
                proof {
                    assert(crate::ast::view_sets(one@) =~= seq![one@[0]@]);
                }
                Some((one, p1))
            }
        },
    }
}

/// CREATE TABLE: `CREATE TABLE <name> ( <column defs> )`, with at least
/// one space between the keywords and the name, and between the name and
/// the parenthesized column definitions.
pub open spec fn spec_create(s: Seq<char>, pos: int) -> Option<(crate::ast::CreateV, int)> {
    match spec_kw(s, pos, "create"@) {
        None => None,
        Some(p1) => match spec_ws1(s, p1) {
            None => None,
            Some(p2) => match spec_kw(s, p2, "table"@) {
                None => None,
                Some(p3) => match spec_ws1(s, p3) {
                    None => None,
                    Some(p4) => match spec_ident(s, p4) {
                        None => None,
                        Some((name, p5)) => match spec_ws1(s, p5) {
                            None => None,
                            Some(p6) => match spec_char(s, ws_end(s, p6), '(') {
                                None => None,
                                Some(p8) => match spec_column_list(s, ws_end(s, p8)) {
                                    None => None,
                                    Some((cols, p10)) => match spec_char(s, ws_end(s, p10), ')') {
                                        None => None,
                                        Some(p12) => Some(
                                            (crate::ast::CreateV { table: name, columns: cols }, p12),
                                        ),
                                    },
                                },
                            },
                        },
                    },
                },
            },
        },
    }
}

/// DROP TABLE: `DROP TABLE <name>`.
pub open spec fn spec_drop(s: Seq<char>, pos: int) -> Option<(crate::ast::DropV, int)> {
    match spec_kw(s, pos, "drop"@) {
        None => None,
        Some(p1) => match spec_ws1(s, p1) {
            None => None,
            Some(p2) => match spec_kw(s, p2, "table"@) {
                None => None,
                Some(p3) => match spec_ws1(s, p3) {
                    None => None,
                    Some(p4) => match spec_ident(s, p4) {
                        None => None,
                        Some((name, p5)) => Some((crate::ast::DropV { table: name }, p5)),
                    },
                },
            },
        },
    }
}

/// The optional explicit column list of an INSERT: `( <ident>, ... )`.
pub open spec fn spec_insert_columns(s: Seq<char>, pos: int) -> Option<(Seq<Seq<char>>, int)> {
    match spec_char(s, ws_end(s, pos), '(') {
        None => None,
        Some(p1) => match spec_ident_list(s, ws_end(s, p1)) {
            None => None,
            Some((ids, p2)) => match spec_char(s, ws_end(s, p2), ')') {
                None => None,
                Some(p3) => Some((ids, p3)),
            },
        },
    }
}

/// The parenthesized VALUES tuple, with trailing whitespace consumed.
pub open spec fn spec_row_value(s: Seq<char>, pos: int) -> Option<(Seq<ValueV>, int)> {
    match spec_char(s, ws_end(s, pos), '(') {
        None => None,
        Some(p1) => match spec_value_list(s, ws_end(s, p1)) {
            None => None,
            Some((vs, p2)) => match spec_char(s, ws_end(s, p2), ')') {
                None => None,
                Some(p3) => Some((vs, ws_end(s, p3))),
            },
        },
    }
}

/// INSERT INTO: `INSERT INTO <name> [ ( <columns> ) ] VALUES ( <values> )`.
/// The explicit column list is optional; when its parse fails, none is
/// taken and nothing is consumed.
pub open spec fn spec_insert(s: Seq<char>, pos: int) -> Option<(crate::ast::InsertV, int)> {
    match spec_kw(s, pos, "insert"@) {
        None => None,
        Some(p1) => match spec_ws1(s, p1) {
            None => None,
            Some(p2) => match spec_kw(s, p2, "into"@) {
                None => None,
                Some(p3) => match spec_ws1(s, p3) {
                    None => None,
                    Some(p4) => match spec_ident(s, p4) {
                        None => None,
                        Some((name, p5)) => {
                            let cols_opt = spec_insert_columns(s, p5);
                            let columns = match cols_opt {
                                Some((ids, _)) => Some(ids),
                                None => None,
                            };
                            let p6 = match cols_opt {
                                Some((_, p)) => p,
                                None => p5,
                            };
                            match spec_kw(s, ws_end(s, p6), "values"@) {
                                None => None,
                                Some(p7) => match spec_row_value(s, p7) {
                                    None => None,
                                    Some((vs, p8)) => Some(
                                        (
                                            crate::ast::InsertV { table: name, columns, values: vs },
                                            p8,
                                        ),
                                    ),
                                },
                            }
                        },
                    },
                },
            },
        },
    }
}

/// SELECT: `SELECT <projection> FROM <name> [ WHERE <predicate> ]`.
pub open spec fn spec_select(s: Seq<char>, pos: int) -> Option<(crate::ast::SelectV, int)> {
    match spec_kw(s, pos, "select"@) {
        None => None,
        Some(p1) => match spec_result_list(s, ws_end(s, p1)) {
            None => None,
            Some((cols, p2)) => match spec_kw(s, ws_end(s, p2), "from"@) {
                None => None,
                Some(p3) => match spec_ident(s, ws_end(s, p3)) {
                    None => None,
                    Some((name, p4)) => {
                        let w = spec_where(s, p4);
                        let constraints = match w {
                            Some((wv, _)) => Some(wv),
                            None => None,
                        };
                        let p5 = match w {
                            Some((_, p)) => p,
                            None => p4,
                        };
                        Some(
                            (
                                crate::ast::SelectV { table: name, columns: cols, constraints },
                                p5,
                            ),
                        )
                    },
                },
            },
        },
    }
}

/// DELETE: `DELETE FROM <name> [ WHERE <predicate> ]`.
pub open spec fn spec_delete(s: Seq<char>, pos: int) -> Option<(crate::ast::DeleteV, int)> {
    match spec_kw(s, pos, "delete"@) {
        None => None,
        Some(p1) => match spec_ws1(s, p1) {
            None => None,
            Some(p2) => match spec_kw(s, p2, "from"@) {
                None => None,
                Some(p3) => match spec_ws1(s, p3) {
                    None => None,
                    Some(p4) => match spec_ident(s, p4) {
                        None => None,
                        Some((name, p5)) => {
                            let w = spec_where(s, p5);
                            let constraints = match w {
                                Some((wv, _)) => Some(wv),
                                None => None,
                            };
                            let p6 = match w {
                                Some((_, p)) => p,
                                None => p5,
                            };
                            Some((crate::ast::DeleteV { table: name, constraints }, p6))
                        },
                    },
                },
            },
        },
    }
}

/// UPDATE: `UPDATE <name> SET <assignments> [ WHERE <predicate> ]`, with
/// at least one space around the keywords.
pub open spec fn spec_update(s: Seq<char>, pos: int) -> Option<(crate::ast::UpdateV, int)> {
    match spec_kw(s, pos, "update"@) {
        None => None,
        Some(p1) => match spec_ws1(s, p1) {
            None => None,
            Some(p2) => match spec_ident(s, p2) {
                None => None,
                Some((name, p3)) => match spec_ws1(s, p3) {
                    None => None,
                    Some(p4) => match spec_kw(s, p4, "set"@) {
                        None => None,
                        Some(p5) => match spec_ws1(s, p5) {
                            None => None,
                            Some(p6) => match spec_set_list(s, p6) {
                                None => None,
                                Some((sets, p7)) => {
                                    let w = spec_where(s, p7);
                                    let constraints = match w {
                                        Some((wv, _)) => Some(wv),
                                        None => None,
                                    };
                                    let p8 = match w {
                                        Some((_, p)) => p,
                                        None => p7,
                                    };
                                    Some(
                                        (
                                            crate::ast::UpdateV { table: name, sets, constraints },
                                            p8,
                                        ),
                                    )
                                },
                            },
                        },
                    },
                },
            },
        },
    }
}

/// A full statement: leading whitespace, one statement kind (each is
/// recognized by its leading keyword), the `;` terminator, trailing
/// whitespace.
pub open spec fn spec_query(s: Seq<char>, pos: int) -> Option<(crate::ast::QueryV, int)> {
    let p0 = ws_end(s, pos);
    let st = if spec_select(s, p0) is Some {
        match spec_select(s, p0) {
            Some((q, p)) => Some((crate::ast::QueryV::Select(q), p)),
            None => None,
        }
    } else if spec_insert(s, p0) is Some {
        match spec_insert(s, p0) {
            Some((q, p)) => Some((crate::ast::QueryV::Insert(q), p)),
            None => None,
        }
    } else if spec_create(s, p0) is Some {
        match spec_create(s, p0) {
            Some((q, p)) => Some((crate::ast::QueryV::Create(q), p)),
            None => None,
        }
    } else if spec_delete(s, p0) is Some {
        match spec_delete(s, p0) {
            Some((q, p)) => Some((crate::ast::QueryV::Delete(q), p)),
            None => None,
        }
    } else if spec_drop(s, p0) is Some {
        match spec_drop(s, p0) {
            Some((q, p)) => Some((crate::ast::QueryV::Drop(q), p)),
            None => None,
        }
    } else if spec_update(s, p0) is Some {
        match spec_update(s, p0) {
            Some((q, p)) => Some((crate::ast::QueryV::Update(q), p)),
            None => None,
        }
    } else {
        None
    };
    match st {
        None => None,
        Some((q, p)) => match spec_char(s, ws_end(s, p), ';') {
            None => None,
            Some(p2) => Some((q, ws_end(s, p2))),
        },
    }
}

/// A whole input accepted by the grammar: one statement and nothing else.
pub open spec fn spec_parse_query(s: Seq<char>) -> Option<crate::ast::QueryV> {
    match spec_query(s, 0) {
        Some((q, p)) => if p == s.len() {
            Some(q)
        } else {
            None
        },
        None => None,
    }
}

/// Parse a CREATE statement: exactly [`spec_create`].
fn p_create(s: &Vec<char>, pos: usize) -> (r: Result<(CreateStatement, usize), ParseError>)
    requires
        pos <= s@.len(),
    ensures
        match r {
            Ok((st, p)) => spec_create(s@, pos as int) == Some((st@, p as int)) && p <= s@.len(),
            Err(_) => spec_create(s@, pos as int) is None,
        },
{
    let kw_create = str_to_chars("create");
    let kw_table = str_to_chars("table");
    let p1 = match match_kw(s, pos, &kw_create) {
        Some(p) => p,
        None => {
            return Err(ParseError::at(pos, ParseRule::CreateTable));
        },
    };
    let p2 = skip_ws(s, p1);
    if p2 == p1 {
        return Err(ParseError::at(p1, ParseRule::CreateTable));
    }
    let p3 = match match_kw(s, p2, &kw_table) {
        Some(p) => p,
        None => {
            return Err(ParseError::at(p2, ParseRule::CreateTable));
        },
    };
    let p4 = skip_ws(s, p3);
    if p4 == p3 {
        return Err(ParseError::at(p3, ParseRule::CreateTable));
    }
    let (name, p5) = match p_ident(s, p4) {
        Some(x) => x,
        None => {
            return Err(ParseError::at(p4, ParseRule::TableName).within(ParseRule::CreateTable));
        },
    };
    let p6 = skip_ws(s, p5);
    if p6 == p5 {
        return Err(ParseError::at(p5, ParseRule::CreateTable));
    }
    let p7 = skip_ws(s, p6);
    let p8 = match match_char(s, p7, '(') {
        Some(p) => p,
        None => {
            return Err(
                ParseError::at(p7, ParseRule::ColumnDefinitions).within(ParseRule::CreateTable),
            );
        },
    };
    let p9 = skip_ws(s, p8);
    let (columns, p10) = match p_column_list(s, p9) {
        Some(x) => x,
        None => {
            return Err(
                ParseError::at(p9, ParseRule::ColumnDefinitions).within(ParseRule::CreateTable),
            );
        },
    };
    let p11 = skip_ws(s, p10);
    let p12 = match match_char(s, p11, ')') {
        Some(p) => p,
        None => {
            return Err(
                ParseError::at(p11, ParseRule::ColumnDefinitions).within(ParseRule::CreateTable),
            );
        },
    };
    Ok((CreateStatement { table: name, columns }, p12))
}

/// Parse a DROP statement: exactly [`spec_drop`].
fn p_drop(s: &Vec<char>, pos: usize) -> (r: Result<(DropStatement, usize), ParseError>)
    requires
        pos <= s@.len(),
    ensures
        match r {
            Ok((st, p)) => spec_drop(s@, pos as int) == Some((st@, p as int)) && p <= s@.len(),
            Err(_) => spec_drop(s@, pos as int) is None,
        },
{
    let kw_drop = str_to_chars("drop");
    let kw_table = str_to_chars("table");
    let p1 = match match_kw(s, pos, &kw_drop) {
        Some(p) => p,
        None => {
            return Err(ParseError::at(pos, ParseRule::DropTable));
        },
    };
    let p2 = skip_ws(s, p1);
    if p2 == p1 {
        return Err(ParseError::at(p1, ParseRule::DropTable));
    }
    let p3 = match match_kw(s, p2, &kw_table) {
        Some(p) => p,
        None => {
            return Err(ParseError::at(p2, ParseRule::DropTable));
        },
    };
    let p4 = skip_ws(s, p3);
    if p4 == p3 {
        return Err(ParseError::at(p3, ParseRule::DropTable));
    }
    let (name, p5) = match p_ident(s, p4) {
        Some(x) => x,
        None => {
            return Err(ParseError::at(p4, ParseRule::TableName).within(ParseRule::DropTable));
        },
    };
    Ok((DropStatement { table: name }, p5))
}

/// Parse the optional explicit column list of an INSERT: exactly
/// [`spec_insert_columns`] on success, `None` otherwise.
fn p_insert_columns(s: &Vec<char>, pos: usize) -> (r: Option<(Vec<String>, usize)>)
    requires
        pos <= s@.len(),
    ensures
        match r {
            Some((ids, p)) => spec_insert_columns(s@, pos as int) == Some(
                (crate::ast::view_strings(ids@), p as int),
            ) && p <= s@.len(),
            None => spec_insert_columns(s@, pos as int) is None,
        },
{
    let q0 = skip_ws(s, pos);
    let p1 = match match_char(s, q0, '(') {
        Some(p) => p,
        None => {
            return None;
        },
    };
    let q1 = skip_ws(s, p1);
    let (ids, p2) = match p_ident_list(s, q1) {
        Some(x) => x,
        None => {
            return None;
        },
    };
    let q2 = skip_ws(s, p2);
    let p3 = match match_char(s, q2, ')') {
        Some(p) => p,
        None => {
            return None;
        },
    };
    Some((ids, p3))
}

/// Parse the VALUES tuple: exactly [`spec_row_value`].
fn p_row_value(s: &Vec<char>, pos: usize) -> (r: Option<(Vec<SqlValue>, usize)>)
    requires
        pos <= s@.len(),
    ensures
        match r {
            Some((vs, p)) => spec_row_value(s@, pos as int) == Some(
                (vs@.map_values(|v: SqlValue| v@), p as int),
            ) && p <= s@.len(),
            None => spec_row_value(s@, pos as int) is None,
        },
{
    let q0 = skip_ws(s, pos);
    let p1 = match match_char(s, q0, '(') {
        Some(p) => p,
        None => {
            return None;
        },
    };
    let q1 = skip_ws(s, p1);
    let (vs, p2) = match p_value_list(s, q1) {
        Some(x) => x,
        None => {
            return None;
        },
    };
    let q2 = skip_ws(s, p2);
    let p3 = match match_char(s, q2, ')') {
        Some(p) => p,
        None => {
            return None;
        },
    };
    Some((vs, skip_ws(s, p3)))
}

/// Parse an INSERT statement: exactly [`spec_insert`].
fn p_insert(s: &Vec<char>, pos: usize) -> (r: Result<(InsertStatement, usize), ParseError>)
    requires
        pos <= s@.len(),
    ensures
        match r {
            Ok((st, p)) => spec_insert(s@, pos as int) == Some((st@, p as int)) && p <= s@.len(),
            Err(_) => spec_insert(s@, pos as int) is None,
        },
{
    let kw_insert = str_to_chars("insert");
    let kw_into = str_to_chars("into");
    let kw_values = str_to_chars("values");
    let p1 = match match_kw(s, pos, &kw_insert) {
        Some(p) => p,
        None => {
            return Err(ParseError::at(pos, ParseRule::InsertInto));
        },
    };
    let p2 = skip_ws(s, p1);
    if p2 == p1 {
        return Err(ParseError::at(p1, ParseRule::InsertInto));
    }
    let p3 = match match_kw(s, p2, &kw_into) {
        Some(p) => p,
        None => {
            return Err(ParseError::at(p2, ParseRule::InsertInto));
        },
    };
    let p4 = skip_ws(s, p3);
    if p4 == p3 {
        return Err(ParseError::at(p3, ParseRule::InsertInto));
    }
    let (name, p5) = match p_ident(s, p4) {
        Some(x) => x,
        None => {
            return Err(ParseError::at(p4, ParseRule::TableName).within(ParseRule::InsertInto));
        },
    };
    let (columns, p6) = match p_insert_columns(s, p5) {
        Some((ids, p)) => (Some(ids), p),
        None => (None, p5),
    };
    let q = skip_ws(s, p6);
    let p7 = match match_kw(s, q, &kw_values) {
        Some(p) => p,
        None => {
            return Err(ParseError::at(q, ParseRule::InsertInto));
        },
    };
    let (values, p8) = match p_row_value(s, p7) {
        Some(x) => x,
        None => {
            return Err(ParseError::at(p7, ParseRule::RowValueTuple).within(ParseRule::InsertInto));
        },
    };
    Ok((InsertStatement { table: name, columns, values: RowValue { values } }, p8))
}

/// Parse a SELECT statement: exactly [`spec_select`].
fn p_select(s: &Vec<char>, pos: usize) -> (r: Result<(SelectStatement, usize), ParseError>)
    requires
        pos <= s@.len(),
    ensures
        match r {
            Ok((st, p)) => spec_select(s@, pos as int) == Some((st@, p as int)) && p <= s@.len(),
            Err(_) => spec_select(s@, pos as int) is None,
        },
{
    let kw_select = str_to_chars("select");
    let kw_from = str_to_chars("from");
    let p1 = match match_kw(s, pos, &kw_select) {
        Some(p) => p,
        None => {
            return Err(ParseError::at(pos, ParseRule::SelectFrom));
        },
    };
    let q1 = skip_ws(s, p1);
    let (columns, p2) = match p_result_list(s, q1) {
        Some(x) => x,
        None => {
            return Err(ParseError::at(q1, ParseRule::ResultColumns).within(ParseRule::SelectFrom));
        },
    };
    let q2 = skip_ws(s, p2);
    let p3 = match match_kw(s, q2, &kw_from) {
        Some(p) => p,
        None => {
            return Err(ParseError::at(q2, ParseRule::SelectFrom));
        },
    };
    let q3 = skip_ws(s, p3);
    let (name, p4) = match p_ident(s, q3) {
        Some(x) => x,
        None => {
            return Err(ParseError::at(q3, ParseRule::TableName).within(ParseRule::SelectFrom));
        },
    };
    let (constraints, p5) = p_where_opt(s, p4);
    Ok((SelectStatement { table: name, columns, constraints }, p5))
}

/// Parse a DELETE statement: exactly [`spec_delete`].
fn p_delete(s: &Vec<char>, pos: usize) -> (r: Result<(DeleteStatement, usize), ParseError>)
    requires
        pos <= s@.len(),
    ensures
        match r {
            Ok((st, p)) => spec_delete(s@, pos as int) == Some((st@, p as int)) && p <= s@.len(),
            Err(_) => spec_delete(s@, pos as int) is None,
        },
{
    let kw_delete = str_to_chars("delete");
    let kw_from = str_to_chars("from");
    let p1 = match match_kw(s, pos, &kw_delete) {
        Some(p) => p,
        None => {
            return Err(ParseError::at(pos, ParseRule::DeleteFrom));
        },
    };
    let p2 = skip_ws(s, p1);
    if p2 == p1 {
        return Err(ParseError::at(p1, ParseRule::DeleteFrom));
    }
    let p3 = match match_kw(s, p2, &kw_from) {
        Some(p) => p,
        None => {
            return Err(ParseError::at(p2, ParseRule::DeleteFrom));
        },
    };
    let p4 = skip_ws(s, p3);
    if p4 == p3 {
        return Err(ParseError::at(p3, ParseRule::DeleteFrom));
    }
    let (name, p5) = match p_ident(s, p4) {
        Some(x) => x,
        None => {
            return Err(ParseError::at(p4, ParseRule::TableName).within(ParseRule::DeleteFrom));
        },
    };
    let (constraints, p6) = p_where_opt(s, p5);
    Ok((DeleteStatement { table: name, constraints }, p6))
}

/// Parse an UPDATE statement: exactly [`spec_update`].
fn p_update(s: &Vec<char>, pos: usize) -> (r: Result<(UpdateStatement, usize), ParseError>)
    requires
        pos <= s@.len(),
    ensures
        match r {
            Ok((st, p)) => spec_update(s@, pos as int) == Some((st@, p as int)) && p <= s@.len(),
            Err(_) => spec_update(s@, pos as int) is None,
        },
{
    let kw_update = str_to_chars("update");
    let kw_set = str_to_chars("set");
    let p1 = match match_kw(s, pos, &kw_update) {
        Some(p) => p,
        None => {
            return Err(ParseError::at(pos, ParseRule::UpdateSet));
        },
    };
    let p2 = skip_ws(s, p1);
    if p2 == p1 {
        return Err(ParseError::at(p1, ParseRule::UpdateSet));
    }
    let (name, p3) = match p_ident(s, p2) {
        Some(x) => x,
        None => {
            return Err(ParseError::at(p2, ParseRule::TableName).within(ParseRule::UpdateSet));
        },
    };
    let p4 = skip_ws(s, p3);
    if p4 == p3 {
        return Err(ParseError::at(p3, ParseRule::UpdateSet));
    }
    let p5 = match match_kw(s, p4, &kw_set) {
        Some(p) => p,
        None => {
            return Err(ParseError::at(p4, ParseRule::UpdateSet));
        },
    };
    let p6 = skip_ws(s, p5);
    if p6 == p5 {
        return Err(ParseError::at(p5, ParseRule::UpdateSet));
    }
    let (sets, p7) = match p_set_list(s, p6) {
        Some(x) => x,
        None => {
            return Err(ParseError::at(p6, ParseRule::SetAssignment).within(ParseRule::UpdateSet));
        },
    };
    let (constraints, p8) = p_where_opt(s, p7);
    Ok((UpdateStatement { table: name, sets, constraints }, p8))
}

/// Parse a full statement: exactly [`spec_query`]. The leading keyword
/// decides which statement kind is parsed; once it has committed, a
/// failure inside that kind is reported as that kind's error, never a
/// silent fallthrough to another kind.
fn p_query(s: &Vec<char>, pos: usize) -> (r: Result<(SqlQuery, usize), ParseError>)
    requires
        pos <= s@.len(),
    ensures
        match r {
            Ok((q, p)) => spec_query(s@, pos as int) == Some((q@, p as int)) && p <= s@.len(),
            Err(_) => spec_query(s@, pos as int) is None,
        },
{
    let kw_select = str_to_chars("select");
    let kw_insert = str_to_chars("insert");
    let kw_create = str_to_chars("create");
    let kw_delete = str_to_chars("delete");
    let kw_drop = str_to_chars("drop");
    let kw_update = str_to_chars("update");
    proof {
        reveal_strlit("select");
        reveal_strlit("insert");
        reveal_strlit("create");
        reveal_strlit("delete");
        reveal_strlit("drop");
        reveal_strlit("update");
    }
    let p0 = skip_ws(s, pos);
    let st: Result<(SqlQuery, usize), ParseError> = if match_kw(s, p0, &kw_select).is_some() {
        match p_select(s, p0) {
            Ok((q, p)) => Ok((SqlQuery::Select(q), p)),
            Err(e) => Err(e),
        }
    } else if match_kw(s, p0, &kw_insert).is_some() {
        match p_insert(s, p0) {
            Ok((q, p)) => Ok((SqlQuery::Insert(q), p)),
            Err(e) => Err(e),
        }
    } else if match_kw(s, p0, &kw_create).is_some() {
        match p_create(s, p0) {
            Ok((q, p)) => Ok((SqlQuery::Create(q), p)),
            Err(e) => Err(e),
        }
    } else if match_kw(s, p0, &kw_delete).is_some() {
        match p_delete(s, p0) {
            Ok((q, p)) => Ok((SqlQuery::Delete(q), p)),
            Err(e) => Err(e),
        }
    } else if match_kw(s, p0, &kw_drop).is_some() {
        match p_drop(s, p0) {
            Ok((q, p)) => Ok((SqlQuery::Drop(q), p)),
            Err(e) => Err(e),
        }
    } else if match_kw(s, p0, &kw_update).is_some() {
        match p_update(s, p0) {
            Ok((q, p)) => Ok((SqlQuery::Update(q), p)),
            Err(e) => Err(e),
        }
    } else {
        Err(ParseError::at(p0, ParseRule::Query))
    };
    proof {
        lemma_statement_keywords_disjoint(s@, p0 as int);
    }
    match st {
        Err(e) => Err(e.within(ParseRule::Query)),
        Ok((q, p)) => {
            let q1 = skip_ws(s, p);
            match match_char(s, q1, ';') {
                None => Err(ParseError::at(q1, ParseRule::Terminator).within(ParseRule::Query)),
                Some(p2) => Ok((q, skip_ws(s, p2))),
            }
        },
    }
}

/// At most one statement keyword can match at a position, and each
/// statement's grammar fails where its keyword does not match.
proof fn lemma_statement_keywords_disjoint(s: Seq<char>, p0: int)
    ensures
        spec_kw(s, p0, "select"@) is None ==> spec_select(s, p0) is None,
        spec_kw(s, p0, "insert"@) is None ==> spec_insert(s, p0) is None,
        spec_kw(s, p0, "create"@) is None ==> spec_create(s, p0) is None,
        spec_kw(s, p0, "delete"@) is None ==> spec_delete(s, p0) is None,
        spec_kw(s, p0, "drop"@) is None ==> spec_drop(s, p0) is None,
        spec_kw(s, p0, "update"@) is None ==> spec_update(s, p0) is None,
        spec_kw(s, p0, "select"@) is Some ==> spec_insert(s, p0) is None && spec_create(s, p0)
            is None && spec_delete(s, p0) is None && spec_drop(s, p0) is None && spec_update(
            s,
            p0,
        ) is None,
        spec_kw(s, p0, "insert"@) is Some ==> spec_create(s, p0) is None && spec_delete(s, p0)
            is None && spec_drop(s, p0) is None && spec_update(s, p0) is None,
        spec_kw(s, p0, "create"@) is Some ==> spec_delete(s, p0) is None && spec_drop(s, p0)
            is None && spec_update(s, p0) is None,
        spec_kw(s, p0, "delete"@) is Some ==> spec_drop(s, p0) is None && spec_update(s, p0)
            is None,
        spec_kw(s, p0, "drop"@) is Some ==> spec_update(s, p0) is None,
{
    reveal_strlit("select");
    reveal_strlit("insert");
    reveal_strlit("create");
    reveal_strlit("delete");
    reveal_strlit("drop");
    reveal_strlit("update");
    lemma_kw_head(s, p0, "select"@, "insert"@, 0);
    lemma_kw_head(s, p0, "select"@, "create"@, 0);
    lemma_kw_head(s, p0, "select"@, "delete"@, 0);
    lemma_kw_head(s, p0, "select"@, "drop"@, 0);
    lemma_kw_head(s, p0, "select"@, "update"@, 0);
    lemma_kw_head(s, p0, "insert"@, "create"@, 0);
    lemma_kw_head(s, p0, "insert"@, "delete"@, 0);
    lemma_kw_head(s, p0, "insert"@, "drop"@, 0);
    lemma_kw_head(s, p0, "insert"@, "update"@, 0);
    lemma_kw_head(s, p0, "create"@, "delete"@, 0);
    lemma_kw_head(s, p0, "create"@, "drop"@, 0);
    lemma_kw_head(s, p0, "create"@, "update"@, 0);
    lemma_kw_head(s, p0, "delete"@, "drop"@, 1);
    lemma_kw_head(s, p0, "delete"@, "update"@, 0);
    lemma_kw_head(s, p0, "drop"@, "update"@, 0);
}

/// Two keywords that differ within their common prefix cannot both match
/// at the same position.
proof fn lemma_kw_head(s: Seq<char>, p0: int, a: Seq<char>, b: Seq<char>, i: int)
    requires
        0 <= i < a.len(),
        i < b.len(),
        a[i] != b[i],
    ensures
        !(spec_kw(s, p0, a) is Some && spec_kw(s, p0, b) is Some),
{
    if spec_kw(s, p0, a) is Some && spec_kw(s, p0, b) is Some {
        assert(lower_char(s[p0 + i]) == a[i]);
        assert(lower_char(s[p0 + i]) == b[i]);
    }
}

/// Parse one whole input as a statement. `Ok` exactly when the grammar
/// accepts the entire input ([`spec_parse_query`]), with the statement it
/// denotes; unconsumed trailing input is an error.
pub fn parse_query_chars(s: &Vec<char>) -> (r: Result<SqlQuery, ParseError>)
    ensures
        match r {
            Ok(q) => spec_parse_query(s@) == Some(q@),
            Err(_) => spec_parse_query(s@) is None,
        },
{
    match p_query(s, 0) {
        Err(e) => Err(e),
        Ok((q, p)) => {
            if p == s.len() {
                Ok(q)
            } else {
                Err(ParseError::at(p, ParseRule::Terminator).within(ParseRule::Query))
            }
        },
    }
}

/// Parse one whole line of text as a statement: [`parse_query_chars`]
/// over the line's characters.
pub fn parse_sql(input: &str) -> (r: Result<SqlQuery, ParseError>)
    ensures
        match r {
            Ok(q) => spec_parse_query(input@) == Some(q@),
            Err(_) => spec_parse_query(input@) is None,
        },
{
    let chars = str_to_chars(input);
    parse_query_chars(&chars)
}

impl CreateStatement {
    /// Parse one statement of this kind from the start of raw text,
    /// returning the unconsumed remainder and the statement: exactly
    /// [`spec_create`].
    pub fn parse_from_raw(input: &str) -> (r: Result<(String, CreateStatement), ParseError>)
        ensures
            match r {
                Ok((rest, st)) => match spec_create(input@, 0) {
                    Some((sv, p)) => st@ == sv && rest@ == input@.subrange(
                        p,
                        input@.len() as int,
                    ),
                    None => false,
                },
                Err(_) => spec_create(input@, 0) is None,
            },
    {
        let chars = str_to_chars(input);
        match p_create(&chars, 0) {
            Err(e) => Err(e),
            Ok((st, p)) => {
                let rest = string_range(&chars, p, chars.len());
                Ok((rest, st))
            },
        }
    }
}

impl DropStatement {
    /// Parse one statement of this kind from the start of raw text,
    /// returning the unconsumed remainder and the statement: exactly
    /// [`spec_drop`].
    pub fn parse_from_raw(input: &str) -> (r: Result<(String, DropStatement), ParseError>)
        ensures
            match r {
                Ok((rest, st)) => match spec_drop(input@, 0) {
                    Some((sv, p)) => st@ == sv && rest@ == input@.subrange(
                        p,
                        input@.len() as int,
                    ),
                    None => false,
                },
                Err(_) => spec_drop(input@, 0) is None,
            },
    {
        let chars = str_to_chars(input);
        match p_drop(&chars, 0) {
            Err(e) => Err(e),
            Ok((st, p)) => {
                let rest = string_range(&chars, p, chars.len());
                Ok((rest, st))
            },
        }
    }
}

impl InsertStatement {
    /// Parse one statement of this kind from the start of raw text,
    /// returning the unconsumed remainder and the statement: exactly
    /// [`spec_insert`].
    pub fn parse_from_raw(input: &str) -> (r: Result<(String, InsertStatement), ParseError>)
        ensures
            match r {
                Ok((rest, st)) => match spec_insert(input@, 0) {
                    Some((sv, p)) => st@ == sv && rest@ == input@.subrange(
                        p,
                        input@.len() as int,
                    ),
                    None => false,
                },
                Err(_) => spec_insert(input@, 0) is None,
            },
    {
        let chars = str_to_chars(input);
        match p_insert(&chars, 0) {
            Err(e) => Err(e),
            Ok((st, p)) => {
                let rest = string_range(&chars, p, chars.len());
                Ok((rest, st))
            },
        }
    }
}

impl SelectStatement {
    /// Parse one statement of this kind from the start of raw text,
    /// returning the unconsumed remainder and the statement: exactly
    /// [`spec_select`].
    pub fn parse_from_raw(input: &str) -> (r: Result<(String, SelectStatement), ParseError>)
        ensures
            match r {
                Ok((rest, st)) => match spec_select(input@, 0) {
                    Some((sv, p)) => st@ == sv && rest@ == input@.subrange(
                        p,
                        input@.len() as int,
                    ),
                    None => false,
                },
                Err(_) => spec_select(input@, 0) is None,
            },
    {
        let chars = str_to_chars(input);
        match p_select(&chars, 0) {
            Err(e) => Err(e),
            Ok((st, p)) => {
                let rest = string_range(&chars, p, chars.len());
                Ok((rest, st))
            },
        }
    }
}

impl DeleteStatement {
    /// Parse one statement of this kind from the start of raw text,
    /// returning the unconsumed remainder and the statement: exactly
    /// [`spec_delete`].
    pub fn parse_from_raw(input: &str) -> (r: Result<(String, DeleteStatement), ParseError>)
        ensures
            match r {
                Ok((rest, st)) => match spec_delete(input@, 0) {
                    Some((sv, p)) => st@ == sv && rest@ == input@.subrange(
                        p,
                        input@.len() as int,
                    ),
                    None => false,
                },
                Err(_) => spec_delete(input@, 0) is None,
            },
    {
        let chars = str_to_chars(input);
        match p_delete(&chars, 0) {
            Err(e) => Err(e),
            Ok((st, p)) => {
                let rest = string_range(&chars, p, chars.len());
                Ok((rest, st))
            },
        }
    }
}

impl UpdateStatement {
    /// Parse one statement of this kind from the start of raw text,
    /// returning the unconsumed remainder and the statement: exactly
    /// [`spec_update`].
    pub fn parse_from_raw(input: &str) -> (r: Result<(String, UpdateStatement), ParseError>)
        ensures
            match r {
                Ok((rest, st)) => match spec_update(input@, 0) {
                    Some((sv, p)) => st@ == sv && rest@ == input@.subrange(
                        p,
                        input@.len() as int,
                    ),
                    None => false,
                },
                Err(_) => spec_update(input@, 0) is None,
            },
    {
        let chars = str_to_chars(input);
        match p_update(&chars, 0) {
            Err(e) => Err(e),
            Ok((st, p)) => {
                let rest = string_range(&chars, p, chars.len());
                Ok((rest, st))
            },
        }
    }
}

impl SqlQuery {
    /// Parse one statement of this kind from the start of raw text,
    /// returning the unconsumed remainder and the statement: exactly
    /// [`spec_query`].
    pub fn parse_from_raw(input: &str) -> (r: Result<(String, SqlQuery), ParseError>)
        ensures
            match r {
                Ok((rest, st)) => match spec_query(input@, 0) {
                    Some((sv, p)) => st@ == sv && rest@ == input@.subrange(
                        p,
                        input@.len() as int,
                    ),
                    None => false,
                },
                Err(_) => spec_query(input@, 0) is None,
            },
    {
        let chars = str_to_chars(input);
        match p_query(&chars, 0) {
            Err(e) => Err(e),
            Ok((st, p)) => {
                let rest = string_range(&chars, p, chars.len());
                Ok((rest, st))
            },
        }
    }
}

} // verus!
