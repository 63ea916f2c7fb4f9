use minisql::ast::{
    BoolOpt, CmpOpt, Column, CreateStatement, DeleteStatement, DropStatement, InsertStatement,
    RowValue, SelectStatement, SetItem, SqlQuery, SqlType, SqlValue, UpdateStatement,
    WhereConstraint,
};
use minisql::parser::parse_sql;

#[test]
fn parser_test1() {
    let expected = CreateStatement {
        table: "foo".into(),
        columns: vec![
            Column {
                name: "col1".into(),
                type_info: SqlType::Int,
            },
            Column {
                name: "col2".into(),
                type_info: SqlType::String,
            },
            Column {
                name: "col3".into(),
                type_info: SqlType::String,
            },
        ],
    };
    assert_eq!(
        CreateStatement::parse_from_raw("CREATE TABLE foo (col1 int, col2 string, col3 string)")
            .unwrap()
            .1,
        expected
    )
}

#[test]
fn test1() {
    let expected = DropStatement {
        table: "foo".into(),
    };
    assert_eq!(
        DropStatement::parse_from_raw("DROP TABLE foo").unwrap().1,
        expected
    )
}

#[test]
fn test_insert_stmt() {
    let expected = InsertStatement {
        table: String::from("foo"),
        columns: None,
        values: RowValue {
            values: vec![
                SqlValue::String(String::from("abc")),
                SqlValue::Int(123),
                SqlValue::String(String::from("def")),
            ],
        },
    };
    let parse_result = InsertStatement::parse_from_raw("INSERT INTO foo VALUES ('abc', 123, 'def')")
        .unwrap()
        .1;
    assert_eq!(parse_result, expected)
}

#[test]
fn test_insert_stmt2() {
    let expected = InsertStatement {
        table: String::from("foo"),
        columns: Some(vec![
            String::from("name"),
            String::from("id"),
            String::from("value"),
        ]),
        values: RowValue {
            values: vec![
                SqlValue::String(String::from("abc")),
                SqlValue::Int(123),
                SqlValue::String(String::from("def")),
            ],
        },
    };
    let parse_result = InsertStatement::parse_from_raw(
        "INSERT INTO foo (name, id, value) VALUES ('abc', 123, 'def')",
    )
    .unwrap()
    .1;
    assert_eq!(parse_result, expected)
}

#[test]
fn test_select_stmt1() {
    let parse_result = SelectStatement::parse_from_raw(
        "SELECT abc, value, bar FROM foo WHERE bar = 123 AND abc >= 'def'",
    );
    match parse_result {
        Ok(q) => println!("{q:?}"),
        Err(e) => println!("{e:?}"),
    }
}

#[test]
fn test_select_stmt2() {
    let expected = SelectStatement {
        table: String::from("foo"),
        columns: vec![
            String::from("abc"),
            String::from("value"),
            String::from("*"),
        ],
        constraints: Some(WhereConstraint::Bin(
            Box::new(WhereConstraint::Constrait(
                String::from("bar"),
                CmpOpt::Eq,
                SqlValue::Int(123),
            )),
            BoolOpt::And,
            Box::new(WhereConstraint::Constrait(
                String::from("abc"),
                CmpOpt::Le,
                SqlValue::String(String::from("def")),
            )),
        )),
    };
    let parse_result = SelectStatement::parse_from_raw(
        "SELECT abc, value, * from foo WHERE bar = 123 AND abc <= 'def'",
    )
    .unwrap()
    .1;
    assert_eq!(parse_result, expected)
}

#[test]
fn parse_full_statement_with_terminator() {
    let q = parse_sql("  CREATE TABLE t (a int);  ").unwrap();
    match q {
        SqlQuery::Create(c) => {
            assert_eq!(c.table, "t");
            assert_eq!(c.columns.len(), 1);
            assert_eq!(c.columns[0].type_info, SqlType::Int);
        }
        other => panic!("wrong statement kind: {other:?}"),
    }
}

#[test]
fn parse_keywords_case_insensitive() {
    let q = parse_sql("sElEcT * FrOm foo;").unwrap();
    assert!(matches!(q, SqlQuery::Select(_)));
}

#[test]
fn parse_delete_statement() {
    let q = parse_sql("DELETE FROM foo WHERE col1 <> 5;").unwrap();
    let expected = DeleteStatement {
        table: String::from("foo"),
        constraints: Some(WhereConstraint::Constrait(
            String::from("col1"),
            CmpOpt::Ne,
            SqlValue::Int(5),
        )),
    };
    assert_eq!(q, SqlQuery::Delete(expected));
}

#[test]
fn parse_update_statement() {
    let q = parse_sql("UPDATE foo SET col2 = 'z', col1 = 7 WHERE col1 < 3;").unwrap();
    let expected = UpdateStatement {
        table: String::from("foo"),
        sets: vec![
            SetItem {
                column: String::from("col2"),
                value: SqlValue::String(String::from("z")),
            },
            SetItem {
                column: String::from("col1"),
                value: SqlValue::Int(7),
            },
        ],
        constraints: Some(WhereConstraint::Constrait(
            String::from("col1"),
            CmpOpt::Lt,
            SqlValue::Int(3),
        )),
    };
    assert_eq!(q, SqlQuery::Update(expected));
}

#[test]
fn parse_not_binds_single_leaf() {
    let q = parse_sql("SELECT * FROM foo WHERE NOT col1 = 5;").unwrap();
    let expected = Some(WhereConstraint::Not(Box::new(WhereConstraint::Constrait(
        String::from("col1"),
        CmpOpt::Eq,
        SqlValue::Int(5),
    ))));
    match q {
        SqlQuery::Select(s) => assert_eq!(s.constraints, expected),
        other => panic!("wrong statement kind: {other:?}"),
    }
}

#[test]
fn parse_where_is_right_associative() {
    let q = parse_sql("SELECT * FROM foo WHERE a = 1 AND b = 2 OR c = 3;").unwrap();
    let leaf = |n: &str, v: i32| {
        Box::new(WhereConstraint::Constrait(
            String::from(n),
            CmpOpt::Eq,
            SqlValue::Int(v),
        ))
    };
    let expected = Some(WhereConstraint::Bin(
        leaf("a", 1),
        BoolOpt::And,
        Box::new(WhereConstraint::Bin(leaf("b", 2), BoolOpt::Or, leaf("c", 3))),
    ));
    match q {
        SqlQuery::Select(s) => assert_eq!(s.constraints, expected),
        other => panic!("wrong statement kind: {other:?}"),
    }
}

#[test]
fn parse_rejects_trailing_input() {
    assert!(parse_sql("DROP TABLE foo; extra").is_err());
}

#[test]
fn parse_rejects_missing_terminator() {
    assert!(parse_sql("DROP TABLE foo").is_err());
}

#[test]
fn parse_rejects_unclosed_string() {
    assert!(parse_sql("INSERT INTO foo VALUES ('abc);").is_err());
}

#[test]
fn parse_int_literal_bounds() {
    let q = parse_sql("INSERT INTO t VALUES (2147483647, -2147483648);").unwrap();
    match q {
        SqlQuery::Insert(i) => {
            assert_eq!(
                i.values.values,
                vec![SqlValue::Int(i32::MAX), SqlValue::Int(i32::MIN)]
            );
        }
        other => panic!("wrong statement kind: {other:?}"),
    }
    assert!(parse_sql("INSERT INTO t VALUES (99999999999);").is_err());
}

#[test]
fn parse_error_carries_offset_and_context() {
    let e = parse_sql("CREATE TABLE foo").unwrap_err();
    assert!(e.offset <= "CREATE TABLE foo".len());
    assert!(!e.contexts.is_empty());
}
