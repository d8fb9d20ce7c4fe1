use bg3_refdb::cross_db::{
    attach_readonly, checked_sql, cross_db_exists_sql, cross_db_union_sql, dangling_sql, detach,
    has_attached, list_attached, lookup_sql, validate_cross_db_fks, Dangling, FkCheck, Lookup, ALIAS_BASE,
};
use rusqlite::Connection;

#[test]
fn test_cross_db_exists_sql() {
    let sql = cross_db_exists_sql("GameObjects", "UUID", &["base", "mods"]);
    assert!(sql.contains("main.\"GameObjects\""));
    assert!(sql.contains("\"base\".\"GameObjects\""));
    assert!(sql.contains("\"mods\".\"GameObjects\""));
    assert!(sql.ends_with("LIMIT 1"));
}

#[test]
fn test_cross_db_union_sql() {
    let sql = cross_db_union_sql("PassiveData", &["base"]);
    assert!(sql.contains("'main' AS _db FROM main.\"PassiveData\""));
    assert!(sql.contains("'base' AS _db FROM \"base\".\"PassiveData\""));
}

#[test]
fn test_attach_validates_alias() {
    let result = attach_readonly("/tmp/test.db", "bad;alias");
    assert!(result.is_err());
    assert!(result.unwrap_err().contains("Invalid alias"));
}

#[test]
fn detach_validates_alias() {
    assert!(detach("bad alias").is_err());
    assert!(detach(ALIAS_BASE).unwrap().contains("base"));
}

#[test]
fn attached_databases_leave_out_main_and_temp() {
    let rows = vec![
        ("main".to_string(), "/a.sqlite".to_string()),
        ("temp".to_string(), String::new()),
        ("base".to_string(), "/b.sqlite".to_string()),
    ];
    let attached = list_attached(&rows);
    assert_eq!(attached, vec![("base".to_string(), "/b.sqlite".to_string())]);
    assert!(has_attached(&rows, ALIAS_BASE));
    assert!(!has_attached(&rows, "mods"));
}

#[test]
fn exists_query_runs_on_attached_databases() {
    let conn = Connection::open_in_memory().unwrap();
    conn.execute_batch(
        "ATTACH ':memory:' AS base;
         CREATE TABLE main.\"T\" (\"UUID\" TEXT PRIMARY KEY);
         CREATE TABLE base.\"T\" (\"UUID\" TEXT PRIMARY KEY);
         INSERT INTO base.\"T\" VALUES ('b-1');",
    )
    .unwrap();
    let sql = cross_db_exists_sql("T", "UUID", &["base"]);
    let found: String = conn.query_row(&sql, ["b-1"], |row| row.get(0)).unwrap();
    assert_eq!(found, "b-1");
    assert!(conn.query_row(&sql, ["b-2"], |row| row.get::<_, String>(0)).is_err());
    let union = cross_db_union_sql("T", &["base"]);
    let n: i64 = conn
        .query_row(&format!("SELECT COUNT(*) FROM ({union})"), [], |row| row.get(0))
        .unwrap();
    assert_eq!(n, 1);
    let lookup = lookup_sql("base", "T", "UUID");
    assert!(conn.query_row(&lookup, ["b-1"], |_| Ok(())).is_ok());
}

#[test]
fn report_counts_each_dangling_reference_once() {
    let check = FkCheck {
        table: "A".to_string(),
        target_table: "T".to_string(),
        from_column: "Ref".to_string(),
        to_column: "UUID".to_string(),
        target_exists: true,
        checked: 3,
        dangling: Some(vec![
            Dangling {
                rowid: 1,
                value: "b-1".to_string(),
                lookups: vec![Lookup::Missing, Lookup::Found],
            },
            Dangling {
                rowid: 2,
                value: "x-1".to_string(),
                lookups: vec![Lookup::NoTable, Lookup::Missing],
            },
        ]),
    };
    let report = validate_cross_db_fks(
        &vec![check],
        &vec!["honor".to_string(), "base".to_string()],
    );
    assert_eq!(report.total_checked, 3);
    assert_eq!(report.attached_schemas, vec!["honor", "base"]);
    assert_eq!(report.cross_resolved, 1);
    assert_eq!(report.unresolved.len(), 1);
    assert_eq!(report.unresolved[0].rowid, 2);
    assert_eq!(report.unresolved[0].value, "x-1");
}

#[test]
fn every_reference_that_is_not_null_is_checked() {
    let conn = Connection::open_in_memory().unwrap();
    conn.execute_batch(
        "ATTACH DATABASE ':memory:' AS base;
         CREATE TABLE T (\"UUID\" TEXT PRIMARY KEY);
         CREATE TABLE base.T (\"UUID\" TEXT PRIMARY KEY);
         CREATE TABLE A (\"Ref\" TEXT);
         INSERT INTO T VALUES ('a');
         INSERT INTO base.T VALUES ('b');
         INSERT INTO A VALUES ('a'), ('b'), ('z'), (NULL);",
    )
    .unwrap();
    let checked: i64 = conn.query_row(&checked_sql("A", "Ref"), [], |row| row.get(0)).unwrap();
    assert_eq!(checked, 3);
    let mut stmt = conn.prepare(&dangling_sql("A", "Ref", "T", "UUID")).unwrap();
    let dangling: Vec<Dangling> = stmt
        .query_map([], |row| Ok((row.get::<_, i64>(0)?, row.get::<_, String>(1)?)))
        .unwrap()
        .map(|r| {
            let (rowid, value) = r.unwrap();
            let found = conn.query_row(&lookup_sql("base", "T", "UUID"), [&value], |_| Ok(())).is_ok();
            let lookups = vec![if found { Lookup::Found } else { Lookup::Missing }];
            Dangling { rowid, value, lookups }
        })
        .collect();
    let check = FkCheck {
        table: "A".to_string(),
        target_table: "T".to_string(),
        from_column: "Ref".to_string(),
        to_column: "UUID".to_string(),
        target_exists: true,
        checked: checked as usize,
        dangling: Some(dangling),
    };
    let report = validate_cross_db_fks(&vec![check], &vec!["base".to_string()]);
    assert_eq!(report.total_checked, 3);
    assert_eq!(report.cross_resolved, 1);
    assert_eq!(report.unresolved.len(), 1);
    assert_eq!((report.unresolved[0].rowid, report.unresolved[0].value.as_str()), (3, "z"));
    assert!(report.unresolved.len() + report.cross_resolved <= report.total_checked);
}

#[test]
fn tables_without_their_target_are_not_checked() {
    let check = |target_exists, dangling| FkCheck {
        table: "A".to_string(),
        target_table: "T".to_string(),
        from_column: "Ref".to_string(),
        to_column: "UUID".to_string(),
        target_exists,
        checked: 5,
        dangling,
    };
    let checks = vec![check(false, Some(Vec::new())), check(true, None), check(true, Some(Vec::new()))];
    let report = validate_cross_db_fks(&checks, &vec![]);
    assert_eq!(report.total_checked, 5);
    assert_eq!(report.unresolved.len(), 0);
}
