use minisql::ast::{Column, RowValue, SqlTable, SqlType, SqlValue};
use minisql::storage::{load_table, records_to_table, save_table, table_to_records};

fn person_table() -> SqlTable {
    SqlTable {
        columns: vec![
            Column {
                name: String::from("Name"),
                type_info: SqlType::String,
            },
            Column {
                name: String::from("Age"),
                type_info: SqlType::Int,
            },
        ],
        rows: vec![
            RowValue {
                values: vec![SqlValue::String(String::from("John")), SqlValue::Int(25)],
            },
            RowValue {
                values: vec![SqlValue::String(String::from("Alice")), SqlValue::Int(30)],
            },
        ],
    }
}

#[test]
fn test_save_cvs() {
    let test_table = person_table();
    let result = save_table(&test_table);
    assert!(!result.is_empty());
}

#[test]
fn save_then_load_round_trip() {
    let t = person_table();
    let bytes = save_table(&t);
    let back = load_table(&bytes).unwrap();
    assert_eq!(back, t);
}

#[test]
fn round_trip_with_quoting_and_extremes() {
    let t = SqlTable {
        columns: vec![
            Column {
                name: String::from("text"),
                type_info: SqlType::String,
            },
            Column {
                name: String::from("num"),
                type_info: SqlType::Int,
            },
        ],
        rows: vec![
            RowValue {
                values: vec![
                    SqlValue::String(String::from("a,b \"quoted\"\nnewline")),
                    SqlValue::Int(i32::MIN),
                ],
            },
            RowValue {
                values: vec![SqlValue::String(String::from("")), SqlValue::Int(i32::MAX)],
            },
            RowValue {
                values: vec![SqlValue::String(String::from("plain")), SqlValue::Unknown],
            },
        ],
    };
    let bytes = save_table(&t);
    let back = load_table(&bytes).unwrap();
    assert_eq!(back, t);
}

#[test]
fn records_layout_is_names_tags_rows() {
    let recs = table_to_records(&person_table());
    assert_eq!(recs.len(), 4);
    assert_eq!(recs[0], vec!["Name".to_string(), "Age".to_string()]);
    assert_eq!(recs[1], vec!["String".to_string(), "Int".to_string()]);
    assert_eq!(recs[2], vec!["John".to_string(), "25".to_string()]);
    assert_eq!(recs[3], vec!["Alice".to_string(), "30".to_string()]);
}

#[test]
fn corrupted_int_cell_loads_as_unknown() {
    let recs = vec![
        vec!["Name".to_string(), "Age".to_string()],
        vec!["String".to_string(), "Int".to_string()],
        vec!["John".to_string(), "abc".to_string()],
    ];
    let t = records_to_table(&recs).unwrap();
    assert_eq!(t.rows[0].values[1], SqlValue::Unknown);
    assert_eq!(t.rows[0].values[0], SqlValue::String("John".to_string()));
}

#[test]
fn unrecognized_type_tag_loads_as_unknown() {
    let recs = vec![
        vec!["a".to_string()],
        vec!["blob".to_string()],
        vec!["whatever".to_string()],
    ];
    let t = records_to_table(&recs).unwrap();
    assert_eq!(t.columns[0].type_info, SqlType::Unknown);
    assert_eq!(t.rows[0].values[0], SqlValue::Unknown);
}

#[test]
fn too_few_records_rejected() {
    let recs = vec![vec!["a".to_string()]];
    assert!(records_to_table(&recs).is_none());
    let recs: Vec<Vec<String>> = vec![];
    assert!(records_to_table(&recs).is_none());
}

#[test]
fn uneven_records_rejected() {
    let recs = vec![
        vec!["a".to_string(), "b".to_string()],
        vec!["Int".to_string()],
    ];
    assert!(records_to_table(&recs).is_none());
}

#[test]
fn unreadable_bytes_rejected() {
    let bytes: Vec<u8> = vec![0xff, 0xfe, b'\n', 0x00];
    assert!(load_table(&bytes).is_none());
}

#[test]
fn empty_table_round_trip() {
    let t = SqlTable {
        columns: vec![Column {
            name: String::from("only"),
            type_info: SqlType::Int,
        }],
        rows: vec![],
    };
    let bytes = save_table(&t);
    let back = load_table(&bytes).unwrap();
    assert_eq!(back, t);
}
