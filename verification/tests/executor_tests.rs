use minisql::ast::{
    BoolOpt, CmpOpt, Column, ExecuteResponse, QueryExecutionError, RowValue, SqlTable, SqlType,
    SqlValue, WhereConstraint,
};
use minisql::eval::{compare_values, eval_where};
use minisql::executor::{
    compare_name, conclude, get_newrol, Execution, StatementEffect, TableSource,
};
use minisql::parser::parse_sql;

fn demo_schema() -> Vec<Column> {
    vec![
        Column {
            name: "col1".into(),
            type_info: SqlType::Int,
        },
        Column {
            name: "col2".into(),
            type_info: SqlType::String,
        },
        Column {
            name: "col3".into(),
            type_info: SqlType::String,
        },
    ]
}

fn demo_table(rows: Vec<RowValue>) -> SqlTable {
    SqlTable {
        columns: demo_schema(),
        rows,
    }
}

fn run(sql: &str, source: TableSource) -> Result<Execution, QueryExecutionError> {
    parse_sql(sql).unwrap().check_and_execute(source)
}

#[test]
fn test_print_table() {
    let res = ExecuteResponse::View(Box::new(SqlTable {
        columns: vec![
            Column {
                name: "id".into(),
                type_info: SqlType::Int,
            },
            Column {
                name: "des".into(),
                type_info: SqlType::String,
            },
        ],
        rows: vec![
            RowValue {
                values: vec![SqlValue::Int(1), SqlValue::String("aabbccdd".into())],
            },
            RowValue {
                values: vec![SqlValue::Int(123), SqlValue::String("aabbcc".into())],
            },
            RowValue {
                values: vec![
                    SqlValue::Int(11),
                    SqlValue::String("aabbccddaabbccdd".into()),
                ],
            },
            RowValue {
                values: vec![SqlValue::Int(2141), SqlValue::String("aabbccdd".into())],
            },
        ],
    }));
    println!("{}", res.render_text());
}

#[test]
fn scenario_create_insert_select() {
    let ex = run(
        "CREATE TABLE foo (col1 int, col2 string, col3 string);",
        TableSource::Missing,
    )
    .unwrap();
    assert_eq!(ex.table, "foo");
    assert_eq!(
        ex.response,
        ExecuteResponse::Message("save foo successful".into())
    );
    let created = match ex.effect {
        StatementEffect::Write(t) => t,
        other => panic!("expected a write effect, got {other:?}"),
    };
    assert_eq!(created.columns, demo_schema());
    assert_eq!(created.rows.len(), 0);

    let ex = run(
        "INSERT INTO foo VALUES (1, 'a', 'b');",
        TableSource::Loaded(created),
    )
    .unwrap();
    let inserted = match ex.effect {
        StatementEffect::Write(t) => t,
        other => panic!("expected a write effect, got {other:?}"),
    };
    assert_eq!(inserted.rows.len(), 1);

    let ex = run("SELECT * FROM foo;", TableSource::Loaded(inserted)).unwrap();
    assert!(matches!(ex.effect, StatementEffect::NoChange));
    match ex.response {
        ExecuteResponse::View(t) => {
            assert_eq!(t.columns, demo_schema());
            assert_eq!(
                t.rows,
                vec![RowValue {
                    values: vec![
                        SqlValue::Int(1),
                        SqlValue::String("a".into()),
                        SqlValue::String("b".into()),
                    ],
                }]
            );
        }
        other => panic!("expected a view, got {other:?}"),
    }
}

#[test]
fn scenario_insert_reconciliation() {
    let ex = run(
        "INSERT INTO foo (col3, col1) VALUES ('x', 5);",
        TableSource::Loaded(demo_table(vec![])),
    )
    .unwrap();
    let t = match ex.effect {
        StatementEffect::Write(t) => t,
        other => panic!("expected a write effect, got {other:?}"),
    };
    assert_eq!(
        t.rows,
        vec![RowValue {
            values: vec![
                SqlValue::Int(5),
                SqlValue::String("NULL".into()),
                SqlValue::String("x".into()),
            ],
        }]
    );
}

#[test]
fn reconciliation_permutation_matches_schema_order() {
    let names = vec![
        String::from("col3"),
        String::from("col1"),
        String::from("col2"),
    ];
    let values = RowValue {
        values: vec![
            SqlValue::String("x".into()),
            SqlValue::Int(5),
            SqlValue::String("y".into()),
        ],
    };
    let row = get_newrol(names, &demo_schema(), values).unwrap();
    assert_eq!(
        row.values,
        vec![
            SqlValue::Int(5),
            SqlValue::String("y".into()),
            SqlValue::String("x".into()),
        ]
    );
}

#[test]
fn scenario_unknown_column_rejected() {
    let err = run(
        "INSERT INTO foo (col9) VALUES (5);",
        TableSource::Loaded(demo_table(vec![]))
    )
    .unwrap_err();
    assert_eq!(err, QueryExecutionError::ColumnDoesNotExist("col9".into()));
    assert_eq!(
        compare_name(&vec![String::from("col1"), String::from("col9")], &demo_schema()),
        Some(String::from("col9"))
    );
}

#[test]
fn insert_arity_checked_without_column_list() {
    let err = run(
        "INSERT INTO foo VALUES (1, 'a');",
        TableSource::Loaded(demo_table(vec![])),
    )
    .unwrap_err();
    assert_eq!(err, QueryExecutionError::TypeDoesNotMatch("values".into()));
}

#[test]
fn scenario_select_with_filter() {
    let rows = vec![
        RowValue {
            values: vec![
                SqlValue::Int(5),
                SqlValue::String("a".into()),
                SqlValue::String("b".into()),
            ],
        },
        RowValue {
            values: vec![
                SqlValue::Int(6),
                SqlValue::String("c".into()),
                SqlValue::String("d".into()),
            ],
        },
        RowValue {
            values: vec![
                SqlValue::Int(5),
                SqlValue::String("e".into()),
                SqlValue::String("f".into()),
            ],
        },
    ];
    let ex = run(
        "SELECT col1 FROM foo WHERE col1 = 5;",
        TableSource::Loaded(demo_table(rows)),
    )
    .unwrap();
    match ex.response {
        ExecuteResponse::View(t) => {
            assert_eq!(t.columns.len(), 1);
            assert_eq!(t.columns[0].name, "col1");
            assert_eq!(
                t.rows,
                vec![
                    RowValue {
                        values: vec![SqlValue::Int(5)],
                    },
                    RowValue {
                        values: vec![SqlValue::Int(5)],
                    },
                ]
            );
        }
        other => panic!("expected a view, got {other:?}"),
    }
}

#[test]
fn scenario_drop_then_select_fails() {
    let ex = run(
        "DROP TABLE foo;",
        TableSource::Loaded(demo_table(vec![])),
    )
    .unwrap();
    assert!(matches!(ex.effect, StatementEffect::Remove));

    let err = run("SELECT * FROM foo;", TableSource::Missing).unwrap_err();
    assert_eq!(err, QueryExecutionError::TableNotFound("foo".into()));
}

#[test]
fn update_rewrites_matching_rows() {
    let rows = vec![
        RowValue {
            values: vec![
                SqlValue::Int(1),
                SqlValue::String("a".into()),
                SqlValue::String("b".into()),
            ],
        },
        RowValue {
            values: vec![
                SqlValue::Int(2),
                SqlValue::String("c".into()),
                SqlValue::String("d".into()),
            ],
        },
    ];
    let ex = run(
        "UPDATE foo SET col2 = 'z' WHERE col1 = 2;",
        TableSource::Loaded(demo_table(rows)),
    )
    .unwrap();
    assert_eq!(ex.response, ExecuteResponse::Count(1));
    let t = match ex.effect {
        StatementEffect::Write(t) => t,
        other => panic!("expected a write effect, got {other:?}"),
    };
    assert_eq!(t.rows[0].values[1], SqlValue::String("a".into()));
    assert_eq!(t.rows[1].values[1], SqlValue::String("z".into()));
}

#[test]
fn update_rejects_wrong_kind() {
    let err = run(
        "UPDATE foo SET col1 = 'text';",
        TableSource::Loaded(demo_table(vec![])),
    )
    .unwrap_err();
    assert_eq!(err, QueryExecutionError::TypeDoesNotMatch("col1".into()));
}

#[test]
fn delete_removes_matching_rows() {
    let rows = vec![
        RowValue {
            values: vec![
                SqlValue::Int(1),
                SqlValue::String("a".into()),
                SqlValue::String("b".into()),
            ],
        },
        RowValue {
            values: vec![
                SqlValue::Int(2),
                SqlValue::String("c".into()),
                SqlValue::String("d".into()),
            ],
        },
        RowValue {
            values: vec![
                SqlValue::Int(1),
                SqlValue::String("e".into()),
                SqlValue::String("f".into()),
            ],
        },
    ];
    let ex = run(
        "DELETE FROM foo WHERE col1 = 1;",
        TableSource::Loaded(demo_table(rows)),
    )
    .unwrap();
    assert_eq!(ex.response, ExecuteResponse::Count(2));
    let t = match ex.effect {
        StatementEffect::Write(t) => t,
        other => panic!("expected a write effect, got {other:?}"),
    };
    assert_eq!(t.rows.len(), 1);
    assert_eq!(t.rows[0].values[0], SqlValue::Int(2));
}

#[test]
fn delete_without_where_removes_all_rows() {
    let rows = vec![
        RowValue {
            values: vec![
                SqlValue::Int(1),
                SqlValue::String("a".into()),
                SqlValue::String("b".into()),
            ],
        },
        RowValue {
            values: vec![
                SqlValue::Int(2),
                SqlValue::String("c".into()),
                SqlValue::String("d".into()),
            ],
        },
    ];
    let ex = run("DELETE FROM foo;", TableSource::Loaded(demo_table(rows))).unwrap();
    assert_eq!(ex.response, ExecuteResponse::Count(2));
    let t = match ex.effect {
        StatementEffect::Write(t) => t,
        other => panic!("expected a write effect, got {other:?}"),
    };
    assert!(t.rows.is_empty());
}

#[test]
fn create_existing_table_rejected() {
    let err = run(
        "CREATE TABLE foo (col1 int);",
        TableSource::Loaded(demo_table(vec![])),
    )
    .unwrap_err();
    assert_eq!(err, QueryExecutionError::TableAlreadyExists("foo".into()));
}

#[test]
fn drop_missing_table_rejected() {
    let err = run("DROP TABLE foo;", TableSource::Missing).unwrap_err();
    assert_eq!(err, QueryExecutionError::TableNotFound("foo".into()));
}

#[test]
fn unreadable_table_is_open_failure() {
    let err = run("SELECT * FROM foo;", TableSource::Unreadable).unwrap_err();
    assert_eq!(err, QueryExecutionError::TableOpenfail("foo".into()));
}

#[test]
fn conclude_reports_save_and_delete_failures() {
    let ex = run(
        "CREATE TABLE foo (col1 int);",
        TableSource::Missing,
    )
    .unwrap();
    let err = conclude(ex, false).unwrap_err();
    assert_eq!(err, QueryExecutionError::TableSavefail("foo".into()));

    let ex = run("DROP TABLE foo;", TableSource::Loaded(demo_table(vec![]))).unwrap();
    let err = conclude(ex, false).unwrap_err();
    assert_eq!(err, QueryExecutionError::TableDeletefail("foo".into()));

    let ex = run("DROP TABLE foo;", TableSource::Loaded(demo_table(vec![]))).unwrap();
    let ok = conclude(ex, true).unwrap();
    assert_eq!(ok, ExecuteResponse::Message("delete foo successful".into()));
}

#[test]
fn predicate_truth_tables() {
    let cols = vec![Column {
        name: "a".into(),
        type_info: SqlType::Int,
    }];
    let row = RowValue {
        values: vec![SqlValue::Int(1)],
    };
    let tru = || Box::new(WhereConstraint::Constrait("a".into(), CmpOpt::Eq, SqlValue::Int(1)));
    let fal = || Box::new(WhereConstraint::Constrait("a".into(), CmpOpt::Eq, SqlValue::Int(2)));
    let and = |l: Box<WhereConstraint>, r: Box<WhereConstraint>| {
        WhereConstraint::Bin(l, BoolOpt::And, r)
    };
    let or = |l: Box<WhereConstraint>, r: Box<WhereConstraint>| {
        WhereConstraint::Bin(l, BoolOpt::Or, r)
    };
    assert_eq!(eval_where(&and(tru(), tru()), &cols, &row).unwrap(), true);
    assert_eq!(eval_where(&and(tru(), fal()), &cols, &row).unwrap(), false);
    assert_eq!(eval_where(&and(fal(), tru()), &cols, &row).unwrap(), false);
    assert_eq!(eval_where(&and(fal(), fal()), &cols, &row).unwrap(), false);
    assert_eq!(eval_where(&or(tru(), tru()), &cols, &row).unwrap(), true);
    assert_eq!(eval_where(&or(tru(), fal()), &cols, &row).unwrap(), true);
    assert_eq!(eval_where(&or(fal(), tru()), &cols, &row).unwrap(), true);
    assert_eq!(eval_where(&or(fal(), fal()), &cols, &row).unwrap(), false);
    let not_true = WhereConstraint::Not(tru());
    let not_false = WhereConstraint::Not(fal());
    assert_eq!(eval_where(&not_true, &cols, &row).unwrap(), false);
    assert_eq!(eval_where(&not_false, &cols, &row).unwrap(), true);
}

#[test]
fn comparator_semantics_ints_and_strings() {
    let i = |v: i32| SqlValue::Int(v);
    let s = |t: &str| SqlValue::String(t.into());
    assert_eq!(compare_values(CmpOpt::Eq, &i(3), &i(3)), Some(true));
    assert_eq!(compare_values(CmpOpt::Ne, &i(3), &i(3)), Some(false));
    assert_eq!(compare_values(CmpOpt::Lt, &i(-2), &i(3)), Some(true));
    assert_eq!(compare_values(CmpOpt::Le, &i(3), &i(3)), Some(true));
    assert_eq!(compare_values(CmpOpt::Gt, &i(4), &i(3)), Some(true));
    assert_eq!(compare_values(CmpOpt::Ge, &i(2), &i(3)), Some(false));
    assert_eq!(compare_values(CmpOpt::Lt, &s("abc"), &s("abd")), Some(true));
    assert_eq!(compare_values(CmpOpt::Lt, &s("ab"), &s("abc")), Some(true));
    assert_eq!(compare_values(CmpOpt::Ge, &s("abd"), &s("abc")), Some(true));
    assert_eq!(compare_values(CmpOpt::Eq, &s("ab"), &s("ab")), Some(true));
    assert_eq!(compare_values(CmpOpt::Eq, &i(3), &s("3")), None);
    assert_eq!(compare_values(CmpOpt::Lt, &s("3"), &i(3)), None);
    assert_eq!(compare_values(CmpOpt::Eq, &SqlValue::Unknown, &i(3)), None);
}

#[test]
fn mixed_kind_comparison_is_reported_error() {
    let cols = vec![Column {
        name: "a".into(),
        type_info: SqlType::Int,
    }];
    let row = RowValue {
        values: vec![SqlValue::Int(1)],
    };
    let w = WhereConstraint::Constrait("a".into(), CmpOpt::Eq, SqlValue::String("1".into()));
    assert_eq!(
        eval_where(&w, &cols, &row),
        Err(QueryExecutionError::TypeDoesNotMatch("a".into()))
    );
    let w = WhereConstraint::Constrait("b".into(), CmpOpt::Eq, SqlValue::Int(1));
    assert_eq!(
        eval_where(&w, &cols, &row),
        Err(QueryExecutionError::ColumnDoesNotExist("b".into()))
    );
}

#[test]
fn render_responses_as_text() {
    assert_eq!(
        ExecuteResponse::Message("save foo successful".into()).render_text(),
        "save foo successful"
    );
    assert_eq!(ExecuteResponse::Count(42).render_text(), "42");
    let view = ExecuteResponse::View(Box::new(SqlTable {
        columns: vec![
            Column {
                name: "a".into(),
                type_info: SqlType::Int,
            },
            Column {
                name: "b".into(),
                type_info: SqlType::String,
            },
        ],
        rows: vec![RowValue {
            values: vec![SqlValue::Int(-7), SqlValue::String("x".into())],
        }],
    }));
    assert_eq!(view.render_text(), "a | b\n-7 | x");
}
