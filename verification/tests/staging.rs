use bg3_refdb::schema::{ColumnDef, DiscoveredSchema, JunctionDef, PkStrategy, TableSchema};
use bg3_refdb::sql::Statement;
use bg3_refdb::staging::{
    changes_query, counts_query, edited_tables, get_pk_column, is_new_query, json_value_to_sql,
    next_row_id_query, plan_upsert, resolve_staging_table, resolve_table_by_region, row_query,
    sqlite_value_to_json, staging_batch_write, staging_get_meta, staging_get_row,
    staging_list_sections, staging_mark_deleted, staging_query_changes, staging_query_section,
    staging_replace_section, staging_set_meta, staging_unmark_deleted, staging_upsert_row,
    wants_row_id, EditedRows, EditedTable, Json, SectionCounts, StagingBatchResult, StagingChange,
    StagingOperation, StagingSectionSummary, Stored, UpsertResult,
};
use bg3_refdb::staging_ddl::{
    build_uuid_indexes, create_staging_data_table, create_staging_junction,
    ensure_staging_authoring_table, populate_staging_column_types, AUTHORING_TABLE,
    STAGING_META_TABLES, UNDO_JOURNAL_TABLE,
};
use bg3_refdb::textmap::TextMap;
use bg3_refdb::types::SqlValue;
use bg3_refdb::undo::{
    capture_row_as_json, forget_edits, get_undo_pointer, insert_row, insert_row_from_json, note_pointer,
    replay_edits, replay_redo_entry, replay_undo_entry, reset_pointer, staging_record_change, staging_redo,
    staging_snapshot, staging_undo, update_row, update_row_from_json, JournalEntry, ReplayPlan,
    UndoReplayEntry,
};
use rusqlite::types::Value;
use rusqlite::{params_from_iter, Connection, OptionalExtension};

// What a database is asked, and how its answers reach the library.

struct StagingDb {
    conn: Connection,
    schema: DiscoveredSchema,
}

fn bound(v: &SqlValue) -> Value {
    match v {
        SqlValue::Null => Value::Null,
        SqlValue::Integer(n) => Value::Integer(*n),
        SqlValue::Real(s) => match s.parse::<f64>() {
            Ok(f) => Value::Real(f),
            Err(_) => Value::Text(s.clone()),
        },
        SqlValue::Text(s) => Value::Text(s.clone()),
    }
}

fn run(conn: &Connection, st: &Statement) -> Result<usize, String> {
    conn.execute(&st.sql, params_from_iter(st.params.iter().map(bound)))
        .map_err(|e| format!("{}: {e}", st.what))
}

fn ask<T: rusqlite::types::FromSql>(conn: &Connection, st: &Statement) -> Option<T> {
    conn.query_row(&st.sql, params_from_iter(st.params.iter().map(bound)), |row| row.get(0))
        .ok()
}

fn stored(v: Value) -> Stored {
    match v {
        Value::Null => Stored::Null,
        Value::Integer(n) => Stored::Integer(n),
        Value::Real(f) => Stored::Real(serde_json::to_string(&f).unwrap()),
        Value::Text(s) => Stored::Text(s),
        Value::Blob(b) => Stored::Blob(b.len()),
    }
}

fn rows_of(conn: &Connection, sql: &str, params: &[&str]) -> Result<(Vec<String>, Vec<Vec<Value>>), String> {
    let mut stmt = conn.prepare(sql).map_err(|e| format!("Prepare: {e}"))?;
    let names: Vec<String> = stmt.column_names().map(|n| n.to_string()).collect();
    let rows = stmt
        .query_map(params_from_iter(params), |row| {
            (0..names.len()).map(|i| row.get(i)).collect()
        })
        .map_err(|e| format!("Query: {e}"))?
        .collect::<Result<Vec<Vec<Value>>, _>>()
        .map_err(|e| format!("Row: {e}"))?;
    Ok((names, rows))
}

fn resolve(db: &StagingDb, table: &str) -> Result<String, String> {
    let found = resolve_table_by_region(table)
        .iter()
        .find_map(|st| ask::<String>(&db.conn, st));
    resolve_staging_table(&db.schema, table, &found)
}

fn is_new(db: &StagingDb, table: &str, pk_col: &str, pk: &str) -> Result<Option<bool>, String> {
    db.conn
        .query_row(&is_new_query(table, pk_col), [pk], |row| Ok(row.get::<_, i32>(0)? == 1))
        .optional()
        .map_err(|e| format!("Check existing: {e}"))
}

fn ensure_authoring(conn: &Connection) {
    conn.execute_batch(AUTHORING_TABLE).unwrap();
    let (_, rows) = rows_of(conn, "PRAGMA table_info(_staging_authoring)", &[]).unwrap();
    let present = rows
        .into_iter()
        .map(|r| match &r[1] {
            Value::Text(s) => s.clone(),
            _ => String::new(),
        })
        .collect();
    for sql in ensure_staging_authoring_table(&present) {
        conn.execute_batch(&sql).unwrap();
    }
}

fn ensure_journal(conn: &Connection) {
    conn.execute_batch(UNDO_JOURNAL_TABLE).unwrap();
}

fn journal_exists(conn: &Connection) -> bool {
    conn.query_row(
        "SELECT 1 FROM sqlite_master WHERE type='table' AND name='_staging_undo_journal'",
        [],
        |_| Ok(()),
    )
    .is_ok()
}

fn capture(db: &StagingDb, table: &str, pk_col: &str, pk: &str) -> Option<String> {
    if !journal_exists(&db.conn) {
        return None;
    }
    let (names, mut rows) = rows_of(&db.conn, &row_query(table, pk_col), &[pk]).unwrap();
    let values = rows.pop()?.into_iter().map(stored).collect();
    Some(capture_row_as_json(&names, &values).unwrap())
}

fn record_change(
    db: &StagingDb,
    label: &str,
    table: &str,
    pk: &str,
    old_row: Option<&str>,
    new_row: Option<&str>,
) -> Result<(), String> {
    let st = staging_record_change(
        label,
        table,
        pk,
        &old_row.map(|s| s.to_string()),
        &new_row.map(|s| s.to_string()),
    );
    run(&db.conn, &st).map(|_| ())
}

fn upsert(db: &StagingDb, table: &str, columns: &TextMap<String>, new: bool) -> Result<UpsertResult, String> {
    let table = resolve(db, table)?;
    let next_id = if wants_row_id(&db.schema, &table, columns, new) {
        db.conn
            .query_row(&next_row_id_query(&table), [], |row| row.get(0))
            .unwrap_or(1)
    } else {
        1
    };
    let plan = plan_upsert(&db.schema, &table, columns, new, next_id)?;
    let before = capture(db, &table, plan.pk_column, &plan.pk_value);
    let existing = is_new(db, &table, plan.pk_column, &plan.pk_value)?;
    let (st, result) = staging_upsert_row(&plan, existing, new);
    run(&db.conn, &st)?;
    if journal_exists(&db.conn) {
        let after = capture(db, &table, plan.pk_column, &plan.pk_value);
        record_change(db, "upsert", &table, &plan.pk_value, before.as_deref(), after.as_deref())?;
    }
    Ok(result)
}

fn mark_deleted(db: &StagingDb, table: &str, pk: &str) -> Result<bool, String> {
    let table = resolve(db, table)?;
    let pk_col = get_pk_column(&db.schema, &table)?;
    let before = capture(db, &table, pk_col, pk);
    let existing = is_new(db, &table, pk_col, pk)?;
    let plan = match staging_mark_deleted(&table, pk_col, pk, existing) {
        Some(plan) => plan,
        None => return Ok(false),
    };
    run(&db.conn, &plan.statement)?;
    if journal_exists(&db.conn) {
        let after = if plan.gone { None } else { capture(db, &table, pk_col, pk) };
        record_change(db, plan.label, &table, pk, before.as_deref(), after.as_deref())?;
    }
    Ok(true)
}

fn unmark_deleted(db: &StagingDb, table: &str, pk: &str) -> Result<bool, String> {
    let table = resolve(db, table)?;
    let pk_col = get_pk_column(&db.schema, &table)?;
    let before = capture(db, &table, pk_col, pk);
    let affected = run(&db.conn, &staging_unmark_deleted(&table, pk_col, pk))?;
    if affected > 0 && journal_exists(&db.conn) {
        let after = capture(db, &table, pk_col, pk);
        record_change(db, "unmark_deleted", &table, pk, before.as_deref(), after.as_deref())?;
    }
    Ok(affected > 0)
}

fn batch_write(db: &StagingDb, ops: &[StagingOperation]) -> Result<StagingBatchResult, String> {
    let tx = db.conn.unchecked_transaction().unwrap();
    let mut outcomes = Vec::new();
    for op in ops {
        let outcome = match op {
            StagingOperation::Upsert { table, columns, is_new } => {
                upsert(db, table, columns, *is_new).map(|_| ())
            }
            StagingOperation::MarkDeleted { table, pk } => mark_deleted(db, table, pk).map(|_| ()),
            StagingOperation::UnmarkDeleted { table, pk } => {
                unmark_deleted(db, table, pk).map(|_| ())
            }
        };
        let failed = outcome.is_err();
        outcomes.push(outcome.err());
        if failed {
            break;
        }
    }
    let result = staging_batch_write(ops.len(), &outcomes);
    if result.failed > 0 {
        tx.rollback().unwrap();
    } else {
        tx.commit().unwrap();
    }
    Ok(result)
}

fn query_changes(db: &StagingDb, filter: Option<&str>) -> Result<Vec<StagingChange>, String> {
    let only = match filter {
        Some(f) => Some(resolve(db, f)?),
        None => None,
    };
    let mut found = Vec::new();
    for of in edited_tables(&db.schema, &only) {
        let (names, rows) = rows_of(&db.conn, &changes_query(&of.table), &[])?;
        let rows = rows.into_iter().map(|r| r.into_iter().map(stored).collect()).collect();
        found.push(EditedRows { of, names, rows });
    }
    staging_query_changes(&found)
}

fn list_sections(db: &StagingDb) -> Result<Vec<StagingSectionSummary>, String> {
    let mut counts = Vec::new();
    for (name, _) in &db.schema.tables.entries {
        let c = db
            .conn
            .query_row(&counts_query(name), [], |row| {
                Ok(SectionCounts {
                    total: row.get(0)?,
                    active: row.get(1)?,
                    new: row.get(2)?,
                    modified: row.get(3)?,
                    deleted: row.get(4)?,
                })
            })
            .map_err(|e| format!("Count rows in {name}: {e}"))?;
        counts.push(c);
    }
    Ok(staging_list_sections(&db.schema, &counts))
}

fn query_section(db: &StagingDb, table: &str, deleted: bool) -> Result<Vec<TextMap<Json>>, String> {
    let table = resolve(db, table)?;
    let (names, rows) = rows_of(&db.conn, &staging_query_section(&table, deleted), &[])?;
    Ok(rows
        .into_iter()
        .map(|r| staging_get_row(&names, &r.into_iter().map(stored).collect()))
        .collect())
}

fn get_row(db: &StagingDb, table: &str, pk: &str) -> Result<Option<TextMap<Json>>, String> {
    let table = resolve(db, table)?;
    let pk_col = get_pk_column(&db.schema, &table)?;
    let (names, mut rows) = rows_of(&db.conn, &row_query(&table, pk_col), &[pk])?;
    Ok(rows
        .pop()
        .map(|r| staging_get_row(&names, &r.into_iter().map(stored).collect())))
}

fn get_meta(conn: &Connection, key: &str) -> Result<Option<String>, String> {
    let st = staging_get_meta(key);
    conn.query_row(&st.sql, params_from_iter(st.params.iter().map(bound)), |row| row.get(0))
        .optional()
        .map_err(|e| format!("{}: {e}", st.what))
}

fn set_meta(conn: &Connection, key: &str, value: &str) -> Result<(), String> {
    run(conn, &staging_set_meta(key, value)).map(|_| ())
}

fn max_boundary(conn: &Connection) -> i64 {
    conn.query_row(
        "SELECT COALESCE(MAX(id), 0) FROM _staging_undo_journal WHERE table_name = '__boundary__'",
        [],
        |row| row.get(0),
    )
    .unwrap()
}

fn pointer(db: &StagingDb) -> Result<Option<i64>, String> {
    ensure_journal(&db.conn);
    ensure_authoring(&db.conn);
    get_undo_pointer(&get_meta(&db.conn, "undo_pointer")?, max_boundary(&db.conn))
}

fn journal(db: &StagingDb) -> Vec<JournalEntry> {
    let mut stmt = db
        .conn
        .prepare("SELECT id, table_name, pk_value, old_row, new_row FROM _staging_undo_journal ORDER BY id")
        .unwrap();
    let rows = stmt
        .query_map([], |row| {
            Ok(JournalEntry {
                id: row.get(0)?,
                table_name: row.get(1)?,
                pk_value: row.get(2)?,
                old_row: row.get(3)?,
                new_row: row.get(4)?,
            })
        })
        .unwrap();
    rows.map(|r| r.unwrap()).collect()
}

fn snapshot(db: &StagingDb, label: &str) -> Result<i64, String> {
    let at = pointer(db)?;
    let plan = staging_snapshot(&journal(db), at, label);
    if let Some(prune) = &plan.prune {
        run(&db.conn, prune)?;
    }
    run(&db.conn, &plan.boundary)?;
    let id = db.conn.last_insert_rowid();
    run(&db.conn, &note_pointer(Some(id)))?;
    Ok(id)
}

fn replay(db: &StagingDb, entries: &Vec<JournalEntry>, plan: &ReplayPlan, back: bool) -> Result<Vec<UndoReplayEntry>, String> {
    let tx = db.conn.unchecked_transaction().unwrap();
    let script = replay_edits(&db.schema, entries, plan, back);
    for st in &script.statements {
        run(&tx, st)?;
    }
    if let Some(why) = script.failure {
        return Err(why);
    }
    if let Some(st) = &plan.move_pointer {
        run(&tx, st)?;
    }
    tx.commit().unwrap();
    Ok(script.replayed)
}

fn undo(db: &StagingDb) -> Result<Vec<UndoReplayEntry>, String> {
    let at = pointer(db)?;
    let entries = journal(db);
    let plan = staging_undo(&entries, at);
    replay(db, &entries, &plan, true)
}

fn redo(db: &StagingDb) -> Result<Vec<UndoReplayEntry>, String> {
    let at = pointer(db)?;
    let entries = journal(db);
    let plan = staging_redo(&entries, at);
    replay(db, &entries, &plan, false)
}

fn column(name: &str, bg3_type: &str) -> ColumnDef {
    ColumnDef {
        name: name.to_string(),
        bg3_type: bg3_type.to_string(),
        sqlite_type: "TEXT".to_string(),
    }
}

fn schema_of(tables: Vec<TableSchema>) -> DiscoveredSchema {
    let mut map = TextMap::new();
    for t in tables {
        map.insert(t.table_name.clone(), t);
    }
    DiscoveredSchema {
        tables: map,
        renames: TextMap::new(),
        region_node_ids: TextMap::new(),
        junction_tables: vec![],
        junction_lookup: TextMap::new(),
    }
}

fn setup_test_staging_db() -> StagingDb {
    let conn = Connection::open_in_memory().unwrap();
    conn.execute_batch(STAGING_META_TABLES).unwrap();
    conn.execute_batch(
        "CREATE TABLE \"test_entries\" (
            \"UUID\" TEXT PRIMARY KEY,
            \"_file_id\" INTEGER,
            \"_SourceID\" INTEGER,
            \"Name\" TEXT,
            \"Description\" TEXT,
            \"_is_modified\" INTEGER NOT NULL DEFAULT 0,
            \"_is_new\" INTEGER NOT NULL DEFAULT 0,
            \"_is_deleted\" INTEGER NOT NULL DEFAULT 0
        )",
    )
    .unwrap();
    let schema = schema_of(vec![TableSchema {
        table_name: "test_entries".to_string(),
        pk_strategy: PkStrategy::Uuid,
        source_type: "lsx".to_string(),
        region_id: Some("TestRegion".to_string()),
        node_id: Some("TestNode".to_string()),
        columns: vec![column("Name", "FixedString"), column("Description", "LSString")],
        fk_constraints: vec![],
        has_file_id: true,
        parent_tables: Vec::new(),
    }]);
    StagingDb { conn, schema }
}

#[test]
fn test_staging_data_table_ddl_has_tracking_cols() {
    // Verify that staging DDL includes the three tracking columns
    let conn = Connection::open_in_memory().unwrap();
    conn.execute_batch(STAGING_META_TABLES).unwrap();

    let ts = TableSchema {
        table_name: "test_table".to_string(),
        pk_strategy: PkStrategy::Uuid,
        source_type: "lsx".to_string(),
        region_id: None,
        node_id: None,
        columns: vec![ColumnDef {
            name: "Name".to_string(),
            bg3_type: "FixedString".to_string(),
            sqlite_type: "TEXT".to_string(),
        }],
        fk_constraints: vec![],
        has_file_id: true,
        parent_tables: Vec::new(),
    };

    conn.execute_batch(&create_staging_data_table(&ts)).unwrap();

    // Check columns exist
    let cols: Vec<String> = conn
        .prepare("PRAGMA table_info(test_table)")
        .unwrap()
        .query_map([], |row| row.get::<_, String>(1))
        .unwrap()
        .filter_map(|r| r.ok())
        .collect();

    assert!(cols.contains(&"UUID".to_string()), "Missing UUID PK");
    assert!(cols.contains(&"Name".to_string()), "Missing Name column");
    assert!(
        cols.contains(&"_is_modified".to_string()),
        "Missing _is_modified"
    );
    assert!(cols.contains(&"_is_new".to_string()), "Missing _is_new");
    assert!(
        cols.contains(&"_is_deleted".to_string()),
        "Missing _is_deleted"
    );
    assert!(cols.contains(&"_file_id".to_string()), "Missing _file_id");
    assert!(cols.contains(&"_SourceID".to_string()), "Missing _SourceID");
}

#[test]
fn test_staging_junction_has_tracking_cols() {
    let conn = Connection::open_in_memory().unwrap();

    let junction = JunctionDef {
        table_name: "jct_test".to_string(),
        parent_table: "parent".to_string(),
        child_table: "child".to_string(),
        parent_pk_column: "UUID".to_string(),
        child_pk_column: "UUID".to_string(),
        parent_pk_type: "TEXT".to_string(),
        child_pk_type: "TEXT".to_string(),
    };
    conn.execute_batch(&create_staging_junction(&junction)).unwrap();

    let cols: Vec<String> = conn
        .prepare("PRAGMA table_info(jct_test)")
        .unwrap()
        .query_map([], |row| row.get::<_, String>(1))
        .unwrap()
        .filter_map(|r| r.ok())
        .collect();

    assert_eq!(cols.len(), 5);
    assert!(cols.contains(&"parent_id".to_string()));
    assert!(cols.contains(&"child_id".to_string()));
    assert!(cols.contains(&"_is_modified".to_string()));
    assert!(cols.contains(&"_is_new".to_string()));
    assert!(cols.contains(&"_is_deleted".to_string()));
}

#[test]
fn test_staging_rowid_table_no_sourceid() {
    let conn = Connection::open_in_memory().unwrap();
    conn.execute_batch(STAGING_META_TABLES).unwrap();

    let ts = TableSchema {
        table_name: "child_table".to_string(),
        pk_strategy: PkStrategy::Rowid,
        source_type: "lsx".to_string(),
        region_id: None,
        node_id: None,
        columns: vec![ColumnDef {
            name: "Value".to_string(),
            bg3_type: "int32".to_string(),
            sqlite_type: "INTEGER".to_string(),
        }],
        fk_constraints: vec![],
        has_file_id: false,
        parent_tables: Vec::new(),
    };

    conn.execute_batch(&create_staging_data_table(&ts)).unwrap();

    let cols: Vec<String> = conn
        .prepare("PRAGMA table_info(child_table)")
        .unwrap()
        .query_map([], |row| row.get::<_, String>(1))
        .unwrap()
        .filter_map(|r| r.ok())
        .collect();

    // Rowid tables should NOT have _SourceID (children inherit parent's source)
    assert!(
        !cols.contains(&"_SourceID".to_string()),
        "_SourceID should not exist on Rowid table"
    );
    // But SHOULD have tracking columns
    assert!(cols.contains(&"_is_modified".to_string()));
    assert!(cols.contains(&"_is_new".to_string()));
    assert!(cols.contains(&"_is_deleted".to_string()));
}

#[test]
fn staging_meta_tables_created_successfully() {
    let conn = Connection::open_in_memory().unwrap();
    conn.execute_batch(STAGING_META_TABLES).unwrap();

    // Verify all five meta tables exist
    let tables: Vec<String> = conn
        .prepare("SELECT name FROM sqlite_master WHERE type='table' ORDER BY name")
        .unwrap()
        .query_map([], |row| row.get::<_, String>(0))
        .unwrap()
        .filter_map(|r| r.ok())
        .collect();

    assert!(tables.contains(&"_sources".to_string()), "Missing _sources");
    assert!(
        tables.contains(&"_source_files".to_string()),
        "Missing _source_files"
    );
    assert!(
        tables.contains(&"_column_types".to_string()),
        "Missing _column_types"
    );
    assert!(
        tables.contains(&"_table_meta".to_string()),
        "Missing _table_meta"
    );
    assert!(
        tables.contains(&"_staging_authoring".to_string()),
        "Missing _staging_authoring"
    );
}

#[test]
fn staging_uuid_pk_table_has_uuid_as_pk() {
    // When PK is UUID, the PK already ensures uniqueness
    let conn = Connection::open_in_memory().unwrap();
    conn.execute_batch(STAGING_META_TABLES).unwrap();

    let ts = TableSchema {
        table_name: "uuid_pk_table".to_string(),
        pk_strategy: PkStrategy::Uuid,
        source_type: "lsx".to_string(),
        region_id: None,
        node_id: None,
        columns: vec![ColumnDef {
            name: "Name".to_string(),
            bg3_type: "FixedString".to_string(),
            sqlite_type: "TEXT".to_string(),
        }],
        fk_constraints: vec![],
        has_file_id: true,
        parent_tables: Vec::new(),
    };

    conn.execute_batch(&create_staging_data_table(&ts)).unwrap();

    // UUID is the PK — verify it
    let pk_cols: Vec<(String, i32)> = conn
        .prepare("PRAGMA table_info(uuid_pk_table)")
        .unwrap()
        .query_map([], |row| {
            let name: String = row.get(1)?;
            let pk: i32 = row.get(5)?;
            Ok((name, pk))
        })
        .unwrap()
        .filter_map(|r| r.ok())
        .collect();

    let uuid_entry = pk_cols.iter().find(|(name, _)| name == "UUID");
    assert!(uuid_entry.is_some(), "UUID column should exist");
    assert!(uuid_entry.unwrap().1 != 0, "UUID should be the PK");
}

#[test]
fn upsert_inserts_new_row_with_is_new() {
    let db = setup_test_staging_db();
    let conn = &db.conn;
    let mut cols = TextMap::new();
    cols.insert("UUID".to_string(), "test-uuid-1".to_string());
    cols.insert("Name".to_string(), "TestEntry".to_string());

    let result = upsert(&db, "test_entries", &cols, true).unwrap();
    assert!(result.was_insert);
    assert_eq!(result.pk_value, "test-uuid-1");

    // Verify tracking flags
    let (is_new, is_mod): (i32, i32) = conn
        .query_row(
            "SELECT \"_is_new\", \"_is_modified\" FROM test_entries WHERE \"UUID\" = ?1",
            ["test-uuid-1"],
            |row| Ok((row.get(0)?, row.get(1)?)),
        )
        .unwrap();
    assert_eq!(is_new, 1);
    assert_eq!(is_mod, 0);
}

#[test]
fn upsert_existing_row_sets_is_modified() {
    let db = setup_test_staging_db();
    let conn = &db.conn;

    // Insert a vanilla row (not new)
    conn.execute(
        "INSERT INTO test_entries (\"UUID\", \"Name\") VALUES ('uuid-2', 'Original')",
        [],
    )
    .unwrap();

    let mut cols = TextMap::new();
    cols.insert("UUID".to_string(), "uuid-2".to_string());
    cols.insert("Name".to_string(), "Modified".to_string());

    let result = upsert(&db, "test_entries", &cols, false).unwrap();
    assert!(!result.was_insert);

    let (is_new, is_mod): (i32, i32) = conn
        .query_row(
            "SELECT \"_is_new\", \"_is_modified\" FROM test_entries WHERE \"UUID\" = ?1",
            ["uuid-2"],
            |row| Ok((row.get(0)?, row.get(1)?)),
        )
        .unwrap();
    assert_eq!(is_new, 0);
    assert_eq!(is_mod, 1);

    // Verify data updated
    let name: String = conn
        .query_row(
            "SELECT \"Name\" FROM test_entries WHERE \"UUID\" = ?1",
            ["uuid-2"],
            |row| row.get(0),
        )
        .unwrap();
    assert_eq!(name, "Modified");
}

#[test]
fn upsert_preserves_is_new_on_re_upsert() {
    let db = setup_test_staging_db();
    let conn = &db.conn;

    // Insert as new
    let mut cols = TextMap::new();
    cols.insert("UUID".to_string(), "uuid-3".to_string());
    cols.insert("Name".to_string(), "First".to_string());
    upsert(&db, "test_entries", &cols, true).unwrap();

    // Re-upsert — should keep _is_new=1
    cols.insert("Name".to_string(), "Second".to_string());
    let result = upsert(&db, "test_entries", &cols, false).unwrap();
    assert!(!result.was_insert);

    let is_new: i32 = conn
        .query_row(
            "SELECT \"_is_new\" FROM test_entries WHERE \"UUID\" = ?1",
            ["uuid-3"],
            |row| row.get(0),
        )
        .unwrap();
    assert_eq!(is_new, 1, "_is_new should be preserved on re-upsert");
}

#[test]
fn soft_delete_sets_is_deleted() {
    let db = setup_test_staging_db();
    let conn = &db.conn;

    conn.execute(
        "INSERT INTO test_entries (\"UUID\", \"Name\") VALUES ('uuid-4', 'ToDelete')",
        [],
    )
    .unwrap();

    let result = mark_deleted(&db, "test_entries", "uuid-4").unwrap();
    assert!(result);

    let is_deleted: i32 = conn
        .query_row(
            "SELECT \"_is_deleted\" FROM test_entries WHERE \"UUID\" = ?1",
            ["uuid-4"],
            |row| row.get(0),
        )
        .unwrap();
    assert_eq!(is_deleted, 1);
}

#[test]
fn soft_delete_on_new_row_hard_deletes() {
    let db = setup_test_staging_db();
    let conn = &db.conn;

    conn.execute(
        "INSERT INTO test_entries (\"UUID\", \"Name\", \"_is_new\") VALUES ('uuid-5', 'New', 1)",
        [],
    ).unwrap();

    let result = mark_deleted(&db, "test_entries", "uuid-5").unwrap();
    assert!(result);

    // Row should be gone entirely
    let count: i32 = conn
        .query_row(
            "SELECT COUNT(*) FROM test_entries WHERE \"UUID\" = ?1",
            ["uuid-5"],
            |row| row.get(0),
        )
        .unwrap();
    assert_eq!(count, 0, "New row should be hard-deleted");
}

#[test]
fn undelete_clears_is_deleted() {
    let db = setup_test_staging_db();
    let conn = &db.conn;

    conn.execute(
        "INSERT INTO test_entries (\"UUID\", \"Name\", \"_is_deleted\") VALUES ('uuid-6', 'Deleted', 1)",
        [],
    ).unwrap();

    let result = unmark_deleted(&db, "test_entries", "uuid-6").unwrap();
    assert!(result);

    let is_deleted: i32 = conn
        .query_row(
            "SELECT \"_is_deleted\" FROM test_entries WHERE \"UUID\" = ?1",
            ["uuid-6"],
            |row| row.get(0),
        )
        .unwrap();
    assert_eq!(is_deleted, 0);
}

#[test]
fn batch_write_rolls_back_on_failure() {
    let db = setup_test_staging_db();
    let conn = &db.conn;

    let mut good_cols = TextMap::new();
    good_cols.insert("UUID".to_string(), "batch-1".to_string());
    good_cols.insert("Name".to_string(), "Good".to_string());

    let ops = vec![
        StagingOperation::Upsert {
            table: "test_entries".to_string(),
            columns: good_cols,
            is_new: true,
        },
        // This should fail — nonexistent table
        StagingOperation::MarkDeleted {
            table: "nonexistent_table".to_string(),
            pk: "x".to_string(),
        },
    ];

    let result = batch_write(&db, &ops).unwrap();
    assert_eq!(result.succeeded, 1);
    assert_eq!(result.failed, 1);
    assert!(!result.errors.is_empty());

    // The first op should have been rolled back
    let count: i32 = conn
        .query_row(
            "SELECT COUNT(*) FROM test_entries WHERE \"UUID\" = 'batch-1'",
            [],
            |row| row.get(0),
        )
        .unwrap();
    assert_eq!(count, 0, "Rolled-back row should not exist");
}

#[test]
fn query_changes_returns_correct_types() {
    let db = setup_test_staging_db();
    let conn = &db.conn;

    conn.execute_batch(
        "INSERT INTO test_entries (\"UUID\", \"Name\", \"_is_new\") VALUES ('new-1', 'New', 1);
         INSERT INTO test_entries (\"UUID\", \"Name\", \"_is_modified\") VALUES ('mod-1', 'Mod', 1);
         INSERT INTO test_entries (\"UUID\", \"Name\", \"_is_deleted\") VALUES ('del-1', 'Del', 1);
         INSERT INTO test_entries (\"UUID\", \"Name\") VALUES ('clean-1', 'Clean');"
    ).unwrap();

    let changes = query_changes(&db, Some("test_entries")).unwrap();
    assert_eq!(
        changes.len(),
        3,
        "Should return 3 changed rows, not the clean one"
    );

    let types: Vec<&str> = changes.iter().map(|c| c.change_type).collect();
    assert!(types.contains(&"new"));
    assert!(types.contains(&"modified"));
    assert!(types.contains(&"deleted"));
}

#[test]
fn section_list_returns_accurate_counts() {
    let db = setup_test_staging_db();
    let conn = &db.conn;

    conn.execute_batch(
        "INSERT INTO test_entries (\"UUID\", \"Name\", \"_is_new\") VALUES ('a', 'A', 1);
         INSERT INTO test_entries (\"UUID\", \"Name\", \"_is_modified\") VALUES ('b', 'B', 1);
         INSERT INTO test_entries (\"UUID\", \"Name\", \"_is_deleted\") VALUES ('c', 'C', 1);
         INSERT INTO test_entries (\"UUID\", \"Name\") VALUES ('d', 'D');",
    )
    .unwrap();

    let sections = list_sections(&db).unwrap();
    assert_eq!(sections.len(), 1);

    let s = &sections[0];
    assert_eq!(s.table_name, "test_entries");
    assert_eq!(s.total_rows, 4);
    assert_eq!(s.active_rows, 3); // all except deleted
    assert_eq!(s.new_rows, 1);
    assert_eq!(s.modified_rows, 1);
    assert_eq!(s.deleted_rows, 1);
}

#[test]
fn staging_authoring_table_has_correct_columns() {
    let conn = Connection::open_in_memory().unwrap();
    ensure_authoring(&conn);

    let cols: Vec<String> = conn
        .prepare("PRAGMA table_info(_staging_authoring)")
        .unwrap()
        .query_map([], |row| row.get::<_, String>(1))
        .unwrap()
        .filter_map(|r| r.ok())
        .collect();

    assert!(cols.contains(&"key".to_string()));
    assert!(cols.contains(&"value".to_string()));
    assert!(cols.contains(&"_is_new".to_string()));
    assert!(cols.contains(&"_is_modified".to_string()));
    assert!(cols.contains(&"_is_deleted".to_string()));
    assert!(cols.contains(&"_original_hash".to_string()));
}

#[test]
fn get_meta_returns_none_for_missing_key() {
    let conn = Connection::open_in_memory().unwrap();
    ensure_authoring(&conn);

    let result = get_meta(&conn, "nonexistent").unwrap();
    assert!(result.is_none());
}

#[test]
fn set_meta_creates_and_replaces_values() {
    let conn = Connection::open_in_memory().unwrap();
    ensure_authoring(&conn);

    set_meta(&conn, "author", "TestUser").unwrap();
    assert_eq!(
        get_meta(&conn, "author").unwrap(),
        Some("TestUser".to_string())
    );

    // Replace
    set_meta(&conn, "author", "NewUser").unwrap();
    assert_eq!(
        get_meta(&conn, "author").unwrap(),
        Some("NewUser".to_string())
    );
}

#[test]
fn get_row_returns_none_for_missing() {
    let db = setup_test_staging_db();
    let result = get_row(&db, "test_entries", "nonexistent").unwrap();
    assert!(result.is_none());
}

#[test]
fn get_row_returns_data_for_existing() {
    let db = setup_test_staging_db();
    let conn = &db.conn;
    conn.execute(
        "INSERT INTO test_entries (\"UUID\", \"Name\") VALUES ('row-1', 'Hello')",
        [],
    )
    .unwrap();

    let result = get_row(&db, "test_entries", "row-1").unwrap();
    assert!(result.is_some());
    let map = result.unwrap();
    assert!(matches!(map.get("Name").unwrap(), Json::Text(s) if s == "Hello"));
}

#[test]
fn query_section_excludes_deleted_by_default() {
    let db = setup_test_staging_db();
    let conn = &db.conn;
    conn.execute_batch(
        "INSERT INTO test_entries (\"UUID\", \"Name\") VALUES ('s1', 'Active');
         INSERT INTO test_entries (\"UUID\", \"Name\", \"_is_deleted\") VALUES ('s2', 'Gone', 1);"
    ).unwrap();

    let rows = query_section(&db, "test_entries", false).unwrap();
    assert_eq!(rows.len(), 1);

    let rows_all = query_section(&db, "test_entries", true).unwrap();
    assert_eq!(rows_all.len(), 2);
}

#[test]
fn delete_nonexistent_row_returns_false() {
    let db = setup_test_staging_db();
    let result = mark_deleted(&db, "test_entries", "no-such-uuid").unwrap();
    assert!(!result);
}

#[test]
fn validate_rejects_unknown_table() {
    let db = setup_test_staging_db();
    let mut cols = TextMap::new();
    cols.insert("UUID".to_string(), "x".to_string());

    let err = upsert(&db, "bogus_table", &cols, true);
    assert!(err.is_err());
    assert!(err.unwrap_err().contains("not found in staging schema"));
}

#[test]
fn undo_journal_table_created() {
    let db = setup_test_staging_db();
    let conn = &db.conn;
    ensure_journal(conn);

    let exists: bool = conn
        .query_row(
            "SELECT 1 FROM sqlite_master WHERE type='table' AND name='_staging_undo_journal'",
            [],
            |_| Ok(true),
        )
        .unwrap_or(false);
    assert!(exists, "Journal table should exist");
}

#[test]
fn snapshot_creates_boundary_marker() {
    let db = setup_test_staging_db();
    let conn = &db.conn;
    let id = snapshot(&db, "test snapshot").unwrap();
    assert!(id > 0);

    let (table_name, pk_value, label): (String, String, String) = conn
        .query_row(
            "SELECT table_name, pk_value, label FROM _staging_undo_journal WHERE id = ?1",
            [id],
            |row| Ok((row.get(0)?, row.get(1)?, row.get(2)?)),
        )
        .unwrap();
    assert_eq!(table_name, "__boundary__");
    assert_eq!(pk_value, "");
    assert_eq!(label, "test snapshot");
}

#[test]
fn record_change_stores_journal_entry() {
    let db = setup_test_staging_db();
    let conn = &db.conn;
    ensure_journal(conn);

    record_change(
        &db,
        "upsert",
        "test_entries",
        "uuid-1",
        None,
        Some("{\"UUID\":\"uuid-1\"}"),
    )
    .unwrap();

    let count: i32 = conn
        .query_row(
            "SELECT COUNT(*) FROM _staging_undo_journal WHERE table_name != '__boundary__'",
            [],
            |row| row.get(0),
        )
        .unwrap();
    assert_eq!(count, 1);
}

#[test]
fn undo_reverts_insert() {
    let db = setup_test_staging_db();
    let conn = &db.conn;

    // Create journal and first snapshot
    snapshot(&db, "before insert").unwrap();

    // Insert a row (auto-records journal entry since journal table exists)
    let mut cols = TextMap::new();
    cols.insert("UUID".to_string(), "undo-test-1".to_string());
    cols.insert("Name".to_string(), "TestName".to_string());
    upsert(&db, "test_entries", &cols, true).unwrap();

    // Close the group
    snapshot(&db, "after insert").unwrap();

    // Verify row exists
    let count: i32 = conn
        .query_row(
            "SELECT COUNT(*) FROM test_entries WHERE \"UUID\" = 'undo-test-1'",
            [],
            |row| row.get(0),
        )
        .unwrap();
    assert_eq!(count, 1, "Row should exist before undo");

    // Undo
    let replayed = undo(&db).unwrap();
    assert_eq!(replayed.len(), 1);
    assert_eq!(replayed[0].table_name, "test_entries");
    assert_eq!(replayed[0].action, "delete");

    // Verify row is gone
    let count: i32 = conn
        .query_row(
            "SELECT COUNT(*) FROM test_entries WHERE \"UUID\" = 'undo-test-1'",
            [],
            |row| row.get(0),
        )
        .unwrap();
    assert_eq!(count, 0, "Row should be gone after undo");
}

#[test]
fn redo_restores_insert() {
    let db = setup_test_staging_db();
    let conn = &db.conn;

    snapshot(&db, "before insert").unwrap();
    let mut cols = TextMap::new();
    cols.insert("UUID".to_string(), "redo-test-1".to_string());
    cols.insert("Name".to_string(), "RedoName".to_string());
    upsert(&db, "test_entries", &cols, true).unwrap();
    snapshot(&db, "after insert").unwrap();

    // Undo
    undo(&db).unwrap();
    let count: i32 = conn
        .query_row(
            "SELECT COUNT(*) FROM test_entries WHERE \"UUID\" = 'redo-test-1'",
            [],
            |row| row.get(0),
        )
        .unwrap();
    assert_eq!(count, 0);

    // Redo
    let replayed = redo(&db).unwrap();
    assert_eq!(replayed.len(), 1);
    assert_eq!(replayed[0].action, "insert");

    let count: i32 = conn
        .query_row(
            "SELECT COUNT(*) FROM test_entries WHERE \"UUID\" = 'redo-test-1'",
            [],
            |row| row.get(0),
        )
        .unwrap();
    assert_eq!(count, 1, "Row should be restored after redo");
}

#[test]
fn undo_reverts_update() {
    let db = setup_test_staging_db();
    let conn = &db.conn;

    // Pre-populate a row
    conn.execute(
        "INSERT INTO test_entries (\"UUID\", \"Name\") VALUES ('upd-1', 'Original')",
        [],
    )
    .unwrap();

    snapshot(&db, "before update").unwrap();

    let mut cols = TextMap::new();
    cols.insert("UUID".to_string(), "upd-1".to_string());
    cols.insert("Name".to_string(), "Modified".to_string());
    upsert(&db, "test_entries", &cols, false).unwrap();

    snapshot(&db, "after update").unwrap();

    // Verify updated
    let name: String = conn
        .query_row(
            "SELECT \"Name\" FROM test_entries WHERE \"UUID\" = 'upd-1'",
            [],
            |row| row.get(0),
        )
        .unwrap();
    assert_eq!(name, "Modified");

    // Undo
    let replayed = undo(&db).unwrap();
    assert_eq!(replayed.len(), 1);
    assert_eq!(replayed[0].action, "update");

    // Verify restored
    let name: String = conn
        .query_row(
            "SELECT \"Name\" FROM test_entries WHERE \"UUID\" = 'upd-1'",
            [],
            |row| row.get(0),
        )
        .unwrap();
    assert_eq!(name, "Original");
}

#[test]
fn undo_restores_soft_deleted_row() {
    let db = setup_test_staging_db();
    let conn = &db.conn;

    // Insert a vanilla row (not new)
    conn.execute(
        "INSERT INTO test_entries (\"UUID\", \"Name\", \"_is_new\") VALUES ('del-1', 'ToDelete', 0)",
        [],
    )
    .unwrap();

    snapshot(&db, "before delete").unwrap();
    mark_deleted(&db, "test_entries", "del-1").unwrap();
    snapshot(&db, "after delete").unwrap();

    // Verify soft deleted
    let is_deleted: i32 = conn
        .query_row(
            "SELECT \"_is_deleted\" FROM test_entries WHERE \"UUID\" = 'del-1'",
            [],
            |row| row.get(0),
        )
        .unwrap();
    assert_eq!(is_deleted, 1);

    // Undo
    undo(&db).unwrap();

    let is_deleted: i32 = conn
        .query_row(
            "SELECT \"_is_deleted\" FROM test_entries WHERE \"UUID\" = 'del-1'",
            [],
            |row| row.get(0),
        )
        .unwrap();
    assert_eq!(is_deleted, 0, "Row should be undeleted after undo");
}

#[test]
fn undo_after_hard_delete_restores_row() {
    let db = setup_test_staging_db();
    let conn = &db.conn;

    // Insert a new row (will be hard-deleted)
    conn.execute(
        "INSERT INTO test_entries (\"UUID\", \"Name\", \"_is_new\") VALUES ('hdel-1', 'NewRow', 1)",
        [],
    )
    .unwrap();

    snapshot(&db, "before hard delete").unwrap();
    mark_deleted(&db, "test_entries", "hdel-1").unwrap();
    snapshot(&db, "after hard delete").unwrap();

    // Verify gone
    let count: i32 = conn
        .query_row(
            "SELECT COUNT(*) FROM test_entries WHERE \"UUID\" = 'hdel-1'",
            [],
            |row| row.get(0),
        )
        .unwrap();
    assert_eq!(count, 0);

    // Undo
    undo(&db).unwrap();

    let count: i32 = conn
        .query_row(
            "SELECT COUNT(*) FROM test_entries WHERE \"UUID\" = 'hdel-1'",
            [],
            |row| row.get(0),
        )
        .unwrap();
    assert_eq!(count, 1, "Row should be restored after undo of hard delete");
}

#[test]
fn multiple_sequential_undos() {
    let db = setup_test_staging_db();
    let conn = &db.conn;

    // Group 1: insert row A
    snapshot(&db, "start 1").unwrap();
    let mut cols_a = TextMap::new();
    cols_a.insert("UUID".to_string(), "seq-a".to_string());
    cols_a.insert("Name".to_string(), "A".to_string());
    upsert(&db, "test_entries", &cols_a, true).unwrap();
    snapshot(&db, "end 1").unwrap();

    // Group 2: insert row B
    let mut cols_b = TextMap::new();
    cols_b.insert("UUID".to_string(), "seq-b".to_string());
    cols_b.insert("Name".to_string(), "B".to_string());
    upsert(&db, "test_entries", &cols_b, true).unwrap();
    snapshot(&db, "end 2").unwrap();

    // Both rows exist
    let count: i32 = conn
        .query_row("SELECT COUNT(*) FROM test_entries", [], |row| row.get(0))
        .unwrap();
    assert_eq!(count, 2);

    // Undo group 2
    let r1 = undo(&db).unwrap();
    assert_eq!(r1.len(), 1);
    assert_eq!(r1[0].pk_value, "seq-b");

    // Only row A remains
    let count: i32 = conn
        .query_row("SELECT COUNT(*) FROM test_entries", [], |row| row.get(0))
        .unwrap();
    assert_eq!(count, 1);

    // Undo group 1
    let r2 = undo(&db).unwrap();
    assert_eq!(r2.len(), 1);
    assert_eq!(r2[0].pk_value, "seq-a");

    // No rows
    let count: i32 = conn
        .query_row("SELECT COUNT(*) FROM test_entries", [], |row| row.get(0))
        .unwrap();
    assert_eq!(count, 0);
}

#[test]
fn snapshot_after_undo_prunes_redo_history() {
    let db = setup_test_staging_db();

    // Group 1: insert row
    snapshot(&db, "start 1").unwrap();
    let mut cols = TextMap::new();
    cols.insert("UUID".to_string(), "prune-1".to_string());
    cols.insert("Name".to_string(), "First".to_string());
    upsert(&db, "test_entries", &cols, true).unwrap();
    snapshot(&db, "end 1").unwrap();

    // Undo group 1
    undo(&db).unwrap();

    // Now create a new group (should prune redo history)
    snapshot(&db, "new start").unwrap();
    cols.insert("UUID".to_string(), "prune-2".to_string());
    cols.insert("Name".to_string(), "Second".to_string());
    upsert(&db, "test_entries", &cols, true).unwrap();
    snapshot(&db, "new end").unwrap();

    // Redo should return empty (redo history was pruned)
    let redo_result = redo(&db).unwrap();
    assert!(redo_result.is_empty(), "Redo should be empty after prune");
}

#[test]
fn undo_with_no_journal_returns_empty() {
    let db = setup_test_staging_db();
    let conn = &db.conn;
    ensure_journal(conn);

    let result = undo(&db).unwrap();
    assert!(result.is_empty());
}

#[test]
fn redo_with_nothing_to_redo_returns_empty() {
    let db = setup_test_staging_db();
    let conn = &db.conn;
    ensure_journal(conn);

    let result = redo(&db).unwrap();
    assert!(result.is_empty());
}

#[test]
fn upsert_rejects_sql_injection_table_names() {
    let db = setup_test_staging_db();
    let conn = &db.conn;
    let mut cols = TextMap::new();
    cols.insert("UUID".to_string(), "test-uuid".to_string());

    let injection_names = [
        "entries; DROP TABLE entries;",
        "test\"; --",
        "test' OR '1'='1",
        "Robert'); DROP TABLE Students;--",
        "test\"; DELETE FROM test_entries WHERE \"1\"=\"1",
        "__boundary__", // undo journal sentinel — must not be resolvable
    ];

    for name in &injection_names {
        let result = upsert(&db, name, &cols, true);
        assert!(result.is_err(), "Should reject table name: {name}");
        let err = result.unwrap_err();
        assert!(
            err.contains("not found in staging schema") || err.contains("not in schema"),
            "Expected schema-not-found error for '{name}', got: {err}",
        );
    }

    // Verify the real table is unharmed
    let count: i32 = conn
        .query_row("SELECT COUNT(*) FROM test_entries", [], |row| row.get(0))
        .unwrap();
    assert_eq!(
        count, 0,
        "test_entries should be untouched after injection attempts"
    );
}

#[test]
fn mark_deleted_rejects_sql_injection_table_names() {
    let db = setup_test_staging_db();
    let conn = &db.conn;

    // Seed a row to verify it survives
    conn.execute(
        "INSERT INTO test_entries (\"UUID\", \"Name\") VALUES ('safe-row', 'Safe')",
        [],
    )
    .unwrap();

    for name in &["entries; DROP TABLE entries;", "test\"; --"] {
        let result = mark_deleted(&db, name, "safe-row");
        assert!(result.is_err(), "Should reject table name: {name}");
    }

    // Row survives
    let count: i32 = conn
        .query_row("SELECT COUNT(*) FROM test_entries", [], |row| row.get(0))
        .unwrap();
    assert_eq!(count, 1, "Row should survive injection attempts");
}

#[test]
fn query_section_rejects_sql_injection_table_names() {
    let db = setup_test_staging_db();
    let conn = &db.conn;

    let result = query_section(&db, "test\"; DROP TABLE test_entries; --", false);
    assert!(result.is_err());

    // Table survives
    let exists: bool = conn
        .query_row(
            "SELECT 1 FROM sqlite_master WHERE type='table' AND name='test_entries'",
            [],
            |_| Ok(true),
        )
        .unwrap_or(false);
    assert!(exists, "test_entries must still exist");
}

#[test]
fn get_row_rejects_sql_injection_table_names() {
    let db = setup_test_staging_db();

    let result = get_row(&db, "test\"; DROP TABLE test_entries; --", "any-pk");
    assert!(result.is_err());
}

#[test]
fn batch_write_atomic_rollback_on_missing_pk() {
    let db = setup_test_staging_db();
    let conn = &db.conn;

    let mut good_cols = TextMap::new();
    good_cols.insert("UUID".to_string(), "batch-ok-1".to_string());
    good_cols.insert("Name".to_string(), "Good".to_string());

    // Second upsert is missing the PK column — should fail
    let mut bad_cols = TextMap::new();
    bad_cols.insert("Name".to_string(), "NoPK".to_string());

    let ops = vec![
        StagingOperation::Upsert {
            table: "test_entries".to_string(),
            columns: good_cols,
            is_new: true,
        },
        StagingOperation::Upsert {
            table: "test_entries".to_string(),
            columns: bad_cols,
            is_new: true,
        },
    ];

    let result = batch_write(&db, &ops).unwrap();
    assert!(
        result.failed > 0,
        "Second op should fail: {:?}",
        result.errors
    );
    assert_eq!(result.succeeded, 1, "Only first op ran before failure");

    // Atomicity check: the successful first op must be rolled back
    let count: i32 = conn
        .query_row(
            "SELECT COUNT(*) FROM test_entries WHERE \"UUID\" = 'batch-ok-1'",
            [],
            |row| row.get(0),
        )
        .unwrap();
    assert_eq!(count, 0, "Rolled-back row from first op should not exist");
}

#[test]
fn batch_write_succeeds_when_all_ops_valid() {
    let db = setup_test_staging_db();
    let conn = &db.conn;

    let mut cols_a = TextMap::new();
    cols_a.insert("UUID".to_string(), "batch-a".to_string());
    cols_a.insert("Name".to_string(), "A".to_string());

    let mut cols_b = TextMap::new();
    cols_b.insert("UUID".to_string(), "batch-b".to_string());
    cols_b.insert("Name".to_string(), "B".to_string());

    let ops = vec![
        StagingOperation::Upsert {
            table: "test_entries".to_string(),
            columns: cols_a,
            is_new: true,
        },
        StagingOperation::Upsert {
            table: "test_entries".to_string(),
            columns: cols_b,
            is_new: true,
        },
    ];

    let result = batch_write(&db, &ops).unwrap();
    assert_eq!(result.succeeded, 2);
    assert_eq!(result.failed, 0);
    assert!(result.errors.is_empty());

    let count: i32 = conn
        .query_row("SELECT COUNT(*) FROM test_entries", [], |row| row.get(0))
        .unwrap();
    assert_eq!(count, 2, "Both rows should be committed");
}

#[test]
fn batch_write_rollback_preserves_pre_existing_data() {
    let db = setup_test_staging_db();
    let conn = &db.conn;

    // Pre-existing row that must survive a failed batch
    conn.execute(
        "INSERT INTO test_entries (\"UUID\", \"Name\") VALUES ('existing', 'Existing')",
        [],
    )
    .unwrap();

    let mut good_cols = TextMap::new();
    good_cols.insert("UUID".to_string(), "batch-new".to_string());
    good_cols.insert("Name".to_string(), "New".to_string());

    let ops = vec![
        StagingOperation::Upsert {
            table: "test_entries".to_string(),
            columns: good_cols,
            is_new: true,
        },
        StagingOperation::MarkDeleted {
            table: "nonexistent_table".to_string(),
            pk: "x".to_string(),
        },
    ];

    let result = batch_write(&db, &ops).unwrap();
    assert!(result.failed > 0);

    // Pre-existing data must be intact
    let name: String = conn
        .query_row(
            "SELECT \"Name\" FROM test_entries WHERE \"UUID\" = 'existing'",
            [],
            |row| row.get(0),
        )
        .unwrap();
    assert_eq!(name, "Existing", "Pre-existing row must be untouched");

    // New row must NOT exist (rolled back)
    let count: i32 = conn
        .query_row(
            "SELECT COUNT(*) FROM test_entries WHERE \"UUID\" = 'batch-new'",
            [],
            |row| row.get(0),
        )
        .unwrap();
    assert_eq!(count, 0);
}

#[test]
fn batch_write_error_report_identifies_failing_op() {
    let db = setup_test_staging_db();

    let mut good_cols = TextMap::new();
    good_cols.insert("UUID".to_string(), "rpt-1".to_string());
    good_cols.insert("Name".to_string(), "Good".to_string());

    let ops = vec![
        StagingOperation::Upsert {
            table: "test_entries".to_string(),
            columns: good_cols,
            is_new: true,
        },
        StagingOperation::MarkDeleted {
            table: "nonexistent_table".to_string(),
            pk: "x".to_string(),
        },
    ];

    let result = batch_write(&db, &ops).unwrap();
    assert_eq!(result.errors.len(), 1);
    // Error message should reference operation index 1
    assert!(
        result.errors[0].contains("Operation 1"),
        "Error should reference failing op index, got: {}",
        result.errors[0],
    );
}

#[test]
fn undo_on_fresh_staging_db_without_journal_table_returns_ok_empty() {
    let db = setup_test_staging_db();
    // Deliberately do NOT call ensure_undo_journal_table — undo creates it

    let result = undo(&db);
    assert!(result.is_ok(), "Undo should not error: {:?}", result.err());
    assert!(
        result.unwrap().is_empty(),
        "Should return empty replay list"
    );
}

#[test]
fn redo_on_fresh_staging_db_without_journal_table_returns_ok_empty() {
    let db = setup_test_staging_db();

    let result = redo(&db);
    assert!(result.is_ok(), "Redo should not error: {:?}", result.err());
    assert!(
        result.unwrap().is_empty(),
        "Should return empty replay list"
    );
}

#[test]
fn undo_then_redo_on_fresh_db_both_graceful() {
    let db = setup_test_staging_db();

    // Undo on empty journal
    let undo_result = undo(&db).unwrap();
    assert!(undo_result.is_empty());

    // Redo immediately after (still nothing to redo)
    let redo_result = redo(&db).unwrap();
    assert!(redo_result.is_empty());

    // A second round should also be fine
    let undo_result2 = undo(&db).unwrap();
    assert!(undo_result2.is_empty());
}

#[test]
fn redo_without_prior_undo_returns_empty() {
    let db = setup_test_staging_db();

    // Create a snapshot and do some work
    snapshot(&db, "initial").unwrap();
    let mut cols = TextMap::new();
    cols.insert("UUID".to_string(), "redo-no-undo".to_string());
    cols.insert("Name".to_string(), "Test".to_string());
    upsert(&db, "test_entries", &cols, true).unwrap();
    snapshot(&db, "after insert").unwrap();

    // Try to redo without undoing first — pointer is already at the latest boundary
    let result = redo(&db).unwrap();
    assert!(
        result.is_empty(),
        "Redo without prior undo should return empty"
    );
}

// Beyond single edits.

fn row_table() -> TableSchema {
    TableSchema {
        table_name: "lsx__Parts".to_string(),
        pk_strategy: PkStrategy::Rowid,
        source_type: "lsx".to_string(),
        region_id: Some("Parts".to_string()),
        node_id: Some("Part".to_string()),
        columns: vec![column("UUID", "guid"), column("Name", "")],
        fk_constraints: vec![],
        has_file_id: false,
        parent_tables: Vec::new(),
    }
}

#[test]
fn numbers_are_made_up_for_rows_without_keys() {
    let db = StagingDb {
        conn: Connection::open_in_memory().unwrap(),
        schema: schema_of(vec![row_table()]),
    };
    db.conn.execute_batch(STAGING_META_TABLES).unwrap();
    db.conn.execute_batch(&create_staging_data_table(&row_table())).unwrap();
    let mut cols = TextMap::new();
    cols.insert("Name".to_string(), "A".to_string());
    cols.insert("Boolean:Other".to_string(), "x".to_string());
    assert_eq!(upsert(&db, "lsx__Parts", &cols, true).unwrap().pk_value, "1");
    assert_eq!(upsert(&db, "lsx__Parts", &cols, true).unwrap().pk_value, "2");
    let err = upsert(&db, "lsx__Parts", &cols, false).unwrap_err();
    assert!(err.contains("Missing PK column '_row_id'"));
}

#[test]
fn sections_are_found_by_region() {
    let db = setup_test_staging_db();
    db.conn
        .execute_batch(
            "INSERT INTO _table_meta VALUES
                ('wrapper', 'lsx', 'TestRegion', 'root', NULL, 1),
                ('test_entries', 'lsx', 'TestRegion', 'TestNode', NULL, 1);",
        )
        .unwrap();
    assert_eq!(resolve(&db, "lsx__TestRegion").unwrap(), "test_entries");
    assert_eq!(resolve(&db, "TestRegion").unwrap(), "test_entries");
    assert_eq!(resolve(&db, "stats__TestRegion").unwrap(), "test_entries");
    let err = resolve(&db, "lsx__Other").unwrap_err();
    assert_eq!(err, "Table 'lsx__Other' not found in staging schema");
    assert!(get_pk_column(&db.schema, "none").unwrap_err().contains("not in schema"));
}

#[test]
fn keys_that_are_no_primary_keys_are_unique_too() {
    let schema = schema_of(vec![row_table()]);
    let conn = Connection::open_in_memory().unwrap();
    conn.execute_batch(STAGING_META_TABLES).unwrap();
    conn.execute_batch(&create_staging_data_table(&row_table())).unwrap();
    for sql in build_uuid_indexes(&schema) {
        conn.execute_batch(&sql).unwrap();
    }
    conn.execute_batch("INSERT INTO \"lsx__Parts\" (\"UUID\") VALUES ('u')").unwrap();
    assert!(conn.execute_batch("INSERT INTO \"lsx__Parts\" (\"UUID\") VALUES ('u')").is_err());
    let types = populate_staging_column_types(&schema);
    assert_eq!(types.len(), 6);
    for st in &types {
        run(&conn, st).unwrap();
    }
    let (name, bg3): (String, Option<String>) = conn
        .query_row(
            "SELECT sqlite_type, bg3_type FROM _column_types WHERE column_name = 'Name'",
            [],
            |row| Ok((row.get(0)?, row.get(1)?)),
        )
        .unwrap();
    assert_eq!((name.as_str(), bg3), ("TEXT", None));
}

#[test]
fn tables_of_notes_are_brought_up_to_date() {
    let conn = Connection::open_in_memory().unwrap();
    conn.execute_batch("CREATE TABLE _staging_authoring (key TEXT PRIMARY KEY, value TEXT NOT NULL)")
        .unwrap();
    ensure_authoring(&conn);
    set_meta(&conn, "k", "v").unwrap();
    assert_eq!(get_meta(&conn, "k").unwrap().as_deref(), Some("v"));
}

#[test]
fn values_are_taken_to_json_and_back() {
    assert!(matches!(sqlite_value_to_json(&Stored::Null), Json::Null));
    assert!(matches!(sqlite_value_to_json(&Stored::Integer(-3)), Json::Integer(-3)));
    assert!(matches!(sqlite_value_to_json(&Stored::Real("1.5".to_string())), Json::Real(s) if s == "1.5"));
    assert!(matches!(sqlite_value_to_json(&Stored::Blob(7)), Json::Text(s) if s == "[blob:7 bytes]"));
    assert!(matches!(json_value_to_sql(&Json::Bool(true)), SqlValue::Integer(1)));
    assert!(matches!(json_value_to_sql(&Json::Null), SqlValue::Null));
    assert!(matches!(json_value_to_sql(&Json::Real("2.5".to_string())), SqlValue::Real(_)));
    assert!(matches!(json_value_to_sql(&Json::Nested("[1]".to_string())), SqlValue::Text(s) if s == "[1]"));
}

#[test]
fn rows_are_read_from_json() {
    let st = insert_row_from_json(
        "t",
        "{\"b\": 1, \"a\": null, \"c\": [1, 2], \"d\": 1.5, \"e\": true, \"f\": \"x\"}",
    )
    .unwrap();
    assert_eq!(
        st.sql,
        "INSERT OR REPLACE INTO \"t\" (\"a\", \"b\", \"c\", \"d\", \"e\", \"f\") VALUES (?1, ?2, ?3, ?4, ?5, ?6)"
    );
    assert!(matches!(&st.params[0], SqlValue::Null));
    assert!(matches!(&st.params[1], SqlValue::Integer(1)));
    assert!(matches!(&st.params[2], SqlValue::Text(s) if s == "[1,2]"));
    assert!(matches!(&st.params[3], SqlValue::Real(s) if s == "1.5"));
    assert!(matches!(&st.params[4], SqlValue::Integer(1)));
    assert!(matches!(&st.params[5], SqlValue::Text(s) if s == "x"));
    let err = insert_row_from_json("t", "[1]").unwrap_err();
    assert!(err.starts_with("Parse row JSON for insert: "));
    let err = update_row_from_json("t", "UUID", "u", "{").unwrap_err();
    assert!(err.starts_with("Parse row JSON for update: "));

    let cells = vec![
        ("UUID".to_string(), Json::Text("u".to_string())),
        ("Name".to_string(), Json::Text("n".to_string())),
    ];
    let st = update_row("t", "UUID", "u", &cells).unwrap();
    assert_eq!(st.sql, "UPDATE \"t\" SET \"Name\" = ? WHERE \"UUID\" = ?");
    assert!(update_row("t", "UUID", "u", &cells[..1].iter().map(|_| ("UUID".to_string(), Json::Null)).collect()).is_none());
    assert_eq!(
        insert_row("t", &cells).sql,
        "INSERT OR REPLACE INTO \"t\" (\"UUID\", \"Name\") VALUES (?1, ?2)"
    );
}

#[test]
fn entries_without_rows_cannot_be_replayed() {
    let db = setup_test_staging_db();
    let entry = JournalEntry {
        id: 1,
        table_name: "test_entries".to_string(),
        pk_value: "p".to_string(),
        old_row: None,
        new_row: None,
    };
    let err = replay_undo_entry(&db.schema, &entry).unwrap_err();
    assert!(err.contains("both old_row and new_row are NULL for test_entries.p"));
    assert!(replay_redo_entry(&db.schema, &entry).is_err());
    let gone = JournalEntry {
        table_name: "elsewhere".to_string(),
        new_row: Some("{}".to_string()),
        ..entry
    };
    let step = replay_undo_entry(&db.schema, &gone).unwrap();
    let st = step.statement.unwrap();
    assert_eq!(st.sql, "DELETE FROM \"elsewhere\" WHERE \"UUID\" = ?1");
    assert_eq!(st.what, "Undo delete elsewhere.p");
    let back = JournalEntry {
        old_row: gone.new_row.clone(),
        new_row: None,
        ..gone
    };
    assert_eq!(replay_redo_entry(&db.schema, &back).unwrap().statement.unwrap().what, "Redo delete elsewhere.p");
    assert_eq!(insert_row_from_json("t", "{}").unwrap().what, "Insert from JSON into t");
    let update = update_row_from_json("t", "UUID", "p", "{\"Name\": 1}").unwrap().unwrap();
    assert_eq!(update.what, "Update from JSON in t");
    assert_eq!(staging_set_meta("k", "v").what, "Set meta 'k'");
    assert_eq!(staging_get_meta("k").what, "Get meta 'k'");
    assert_eq!(forget_edits("t").what, "Clear undo journal for 't'");
    assert!(get_undo_pointer(&Some("x1".to_string()), 4).unwrap_err().contains("Invalid undo_pointer"));
    assert_eq!(get_undo_pointer(&Some("7".to_string()), 4).unwrap(), Some(7));
    assert_eq!(get_undo_pointer(&None, 4).unwrap(), Some(4));
    assert_eq!(get_undo_pointer(&None, 0).unwrap(), None);
}

#[test]
fn redoing_follows_undoing() {
    let db = setup_test_staging_db();
    snapshot(&db, "start").unwrap();
    for (pk, name) in [("k-1", "One"), ("k-2", "Two"), ("k-1", "Uno")] {
        let mut cols = TextMap::new();
        cols.insert("UUID".to_string(), pk.to_string());
        cols.insert("Name".to_string(), name.to_string());
        upsert(&db, "test_entries", &cols, true).unwrap();
    }
    snapshot(&db, "end").unwrap();
    let rows = |db: &StagingDb| rows_of(&db.conn, "SELECT * FROM test_entries ORDER BY \"UUID\"", &[]).unwrap().1;
    let before = rows(&db);
    let undone = undo(&db).unwrap();
    let order: Vec<&str> = undone.iter().map(|r| r.pk_value.as_str()).collect();
    assert_eq!(order, vec!["k-1", "k-2", "k-1"]);
    assert!(rows(&db).is_empty());
    assert_eq!(redo(&db).unwrap().len(), 3);
    assert_eq!(rows(&db), before);
}

#[test]
fn sections_can_be_put_back() {
    let db = setup_test_staging_db();
    db.conn
        .execute_batch("INSERT INTO test_entries (\"UUID\", \"Name\") VALUES ('a', 'A'), ('b', 'B')")
        .unwrap();
    let baseline = query_section(&db, "test_entries", true).unwrap();
    snapshot(&db, "start").unwrap();
    mark_deleted(&db, "test_entries", "a").unwrap();
    let statements = staging_replace_section(&db.schema, "test_entries", &baseline).unwrap();
    assert_eq!(statements.len(), 3);
    assert_eq!(statements[0].sql, "DELETE FROM \"test_entries\"");
    assert_eq!(
        statements[1].sql,
        "INSERT INTO \"test_entries\" (\"UUID\", \"_file_id\", \"_SourceID\", \"Name\", \"Description\", \"_is_new\", \"_is_modified\", \"_is_deleted\") VALUES (?1, ?2, ?3, ?4, ?5, ?6, ?7, ?8)"
    );
    for st in &statements {
        run(&db.conn, st).unwrap();
    }
    run(&db.conn, &forget_edits("test_entries")).unwrap();
    assert!(journal(&db).iter().all(|e| e.table_name == "__boundary__"));
    run(&db.conn, &reset_pointer(max_boundary(&db.conn))).unwrap();
    let put_back = query_section(&db, "test_entries", true).unwrap();
    assert_eq!(put_back.len(), 2);
    for (row, was) in put_back.iter().zip(&baseline) {
        for (name, value) in &was.entries {
            assert_eq!(format!("{:?}", row.get(name)), format!("{:?}", Some(value)), "{name}");
        }
    }
    let names: Vec<Value> = rows_of(&db.conn, "SELECT \"Name\" FROM test_entries WHERE \"_is_deleted\" = 0 ORDER BY 1", &[])
        .unwrap()
        .1
        .concat();
    assert_eq!(names, vec![Value::Text("A".to_string()), Value::Text("B".to_string())]);
    assert!(staging_replace_section(&db.schema, "none", &vec![]).is_err());
    assert_eq!(staging_replace_section(&db.schema, "test_entries", &vec![]).unwrap().len(), 1);
}

#[test]
fn replays_stop_at_the_first_edit_that_fails() {
    let db = setup_test_staging_db();
    let entry = |id: i64, pk: &str, old_row: Option<&str>, new_row: Option<&str>| JournalEntry {
        id,
        table_name: "test_entries".to_string(),
        pk_value: pk.to_string(),
        old_row: old_row.map(|s| s.to_string()),
        new_row: new_row.map(|s| s.to_string()),
    };
    let journal = vec![
        entry(1, "a", None, Some("{\"UUID\": \"a\"}")),
        entry(2, "b", Some("{\"UUID\": \"b\"}"), Some("{\"UUID\": \"b\"}")),
        entry(3, "c", None, None),
        entry(4, "d", None, Some("{\"UUID\": \"d\"}")),
    ];
    let plan = |edits: Vec<usize>| ReplayPlan { edits, move_pointer: None };

    let script = replay_edits(&db.schema, &journal, &plan(vec![0, 1, 2, 3]), false);
    let actions: Vec<(&str, &str)> =
        script.replayed.iter().map(|r| (r.pk_value.as_str(), r.action.as_str())).collect();
    assert_eq!(actions, vec![("a", "insert"), ("b", "update")]);
    assert_eq!(script.statements.len(), 1, "a row with its key alone is not updated");
    assert!(script.failure.unwrap().contains("both old_row and new_row are NULL"));

    let script = replay_edits(&db.schema, &journal, &plan(vec![3, 0]), true);
    let actions: Vec<(&str, &str)> =
        script.replayed.iter().map(|r| (r.pk_value.as_str(), r.action.as_str())).collect();
    assert_eq!(actions, vec![("d", "delete"), ("a", "delete")]);
    assert_eq!(script.statements.len(), 2);
    assert!(script.failure.is_none());
}

#[test]
fn edits_are_named_by_their_marks() {
    let of = || EditedTable { table: "t".to_string(), pk_column: "UUID" };
    let names: Vec<String> =
        ["UUID", "Name", "_is_new", "_is_modified", "_is_deleted"].iter().map(|s| s.to_string()).collect();
    let row = |key: &str, marks: [i64; 3]| {
        vec![
            Stored::Text(key.to_string()),
            Stored::Null,
            Stored::Integer(marks[0]),
            Stored::Integer(marks[1]),
            Stored::Integer(marks[2]),
        ]
    };
    let found = vec![EditedRows {
        of: of(),
        names: names.clone(),
        rows: vec![row("a", [1, 1, 0]), row("b", [0, 1, 0]), row("c", [1, 0, 1]), row("d", [2, 0, 0])],
    }];
    let changes = staging_query_changes(&found).unwrap();
    let kinds: Vec<(&str, &str)> =
        changes.iter().map(|c| (c.pk_value.as_str(), c.change_type)).collect();
    assert_eq!(kinds, vec![("a", "new"), ("b", "modified"), ("c", "deleted"), ("d", "unknown")]);
    assert_eq!(changes[0].columns.len(), 2);
    assert!(matches!(changes[0].columns.get("Name"), Some(Json::Null)));

    let mut bad = row("a", [1, 0, 0]);
    bad[3] = Stored::Text("1".to_string());
    let err =
        staging_query_changes(&vec![EditedRows { of: of(), names, rows: vec![bad] }]).unwrap_err();
    assert_eq!(err, "Row error in t: a mark is no integer");
}

#[test]
fn rows_are_kept_as_json() {
    let names: Vec<String> = ["b", "a", "c", "d", "e"].iter().map(|s| s.to_string()).collect();
    let values = vec![
        Stored::Integer(-7),
        Stored::Text("quote \" and \n line".to_string()),
        Stored::Null,
        Stored::Real("0.1".to_string()),
        Stored::Blob(3),
    ];
    let text = capture_row_as_json(&names, &values).unwrap();
    assert_eq!(
        text,
        "{\"a\":\"quote \\\" and \\n line\",\"b\":-7,\"c\":null,\"d\":0.1,\"e\":\"[blob:3 bytes]\"}"
    );
    let st = insert_row_from_json("t", &text).unwrap();
    assert!(matches!(&st.params[0], SqlValue::Text(s) if s == "quote \" and \n line"));
    assert!(matches!(&st.params[1], SqlValue::Integer(-7)));
    assert!(matches!(&st.params[2], SqlValue::Null));
    assert!(matches!(&st.params[3], SqlValue::Real(s) if s == "0.1"));
    let err = capture_row_as_json(&names[..1].to_vec(), &vec![Stored::Real("x".to_string())]).unwrap_err();
    assert!(err.starts_with("Serialize captured row: "));
}

#[test]
fn rows_come_back_with_their_file_and_module() {
    let table = |pk_strategy| TableSchema {
        table_name: "t".to_string(),
        source_type: "lsx".to_string(),
        region_id: None,
        node_id: None,
        pk_strategy,
        columns: vec![column("Name", "FixedString")],
        fk_constraints: vec![],
        has_file_id: true,
        parent_tables: vec![],
    };
    let row = |fields: Vec<(&str, Json)>| {
        let mut r = TextMap::new();
        for (name, value) in fields {
            r.insert(name.to_string(), value);
        }
        r
    };
    let given = row(vec![
        ("Name", Json::Text("N".to_string())),
        ("_SourceID", Json::Integer(3)),
        ("UUID", Json::Text("u".to_string())),
        ("_file_id", Json::Integer(7)),
        ("Other", Json::Integer(1)),
    ]);
    let conn = Connection::open_in_memory().unwrap();
    conn.execute_batch(&create_staging_data_table(&table(PkStrategy::Uuid))).unwrap();
    let schema = schema_of(vec![table(PkStrategy::Uuid)]);
    for st in &staging_replace_section(&schema, "t", &vec![given]).unwrap() {
        run(&conn, st).unwrap();
    }
    let (_, rows) = rows_of(&conn, "SELECT \"UUID\", _file_id, \"_SourceID\", \"Name\" FROM t", &[]).unwrap();
    assert_eq!(
        rows,
        vec![vec![
            Value::Text("u".to_string()),
            Value::Integer(7),
            Value::Integer(3),
            Value::Text("N".to_string()),
        ]]
    );

    let schema = schema_of(vec![table(PkStrategy::Rowid)]);
    let given = row(vec![("_row_id", Json::Integer(4)), ("Name", Json::Null)]);
    let statements = staging_replace_section(&schema, "t", &vec![given]).unwrap();
    assert_eq!(statements[1].sql, "INSERT INTO \"t\" (\"_row_id\", \"Name\") VALUES (?1, ?2)");
}

fn add_entry(db: &StagingDb, pk: &str) {
    let mut cols = TextMap::new();
    cols.insert("UUID".to_string(), pk.to_string());
    upsert(db, "test_entries", &cols, true).unwrap();
}

fn entry_keys(db: &StagingDb) -> Vec<Value> {
    rows_of(&db.conn, "SELECT \"UUID\" FROM test_entries ORDER BY 1", &[]).unwrap().1.concat()
}

#[test]
fn the_first_group_can_be_undone_and_redone() {
    let db = setup_test_staging_db();
    ensure_journal(&db.conn);
    add_entry(&db, "k-1");
    snapshot(&db, "one").unwrap();
    add_entry(&db, "k-2");
    snapshot(&db, "two").unwrap();
    let all = entry_keys(&db);
    assert_eq!(undo(&db).unwrap().len(), 1);
    assert_eq!(undo(&db).unwrap().len(), 1);
    assert!(entry_keys(&db).is_empty());
    assert_eq!(pointer(&db).unwrap(), Some(0));
    assert_eq!(undo(&db).unwrap().len(), 0, "nothing is left to undo");
    assert_eq!(redo(&db).unwrap()[0].pk_value, "k-1");
    assert_eq!(redo(&db).unwrap()[0].pk_value, "k-2");
    assert_eq!(entry_keys(&db), all);
    assert_eq!(redo(&db).unwrap().len(), 0);
}

#[test]
fn a_snapshot_forgets_only_what_was_undone() {
    let db = setup_test_staging_db();
    snapshot(&db, "start").unwrap();
    add_entry(&db, "k-1");
    let one = snapshot(&db, "one").unwrap();
    undo(&db).unwrap();
    add_entry(&db, "k-2");
    let plan = staging_snapshot(&journal(&db), pointer(&db).unwrap(), "two");
    let prune = plan.prune.unwrap();
    assert_eq!(prune.sql, "DELETE FROM _staging_undo_journal WHERE id > ?1 AND id <= ?2");
    assert!(matches!(prune.params[1], SqlValue::Integer(n) if n == one));
    snapshot(&db, "two").unwrap();
    let kept: Vec<String> = journal(&db).iter().map(|e| e.pk_value.clone()).collect();
    assert_eq!(kept, vec!["", "k-2", ""]);
    assert_eq!(undo(&db).unwrap()[0].pk_value, "k-2");
    assert!(entry_keys(&db).is_empty());
    assert_eq!(redo(&db).unwrap()[0].pk_value, "k-2");
    assert_eq!(entry_keys(&db).len(), 1);
}

#[test]
fn all_kinds_of_edits_are_undone_and_redone() {
    let db = setup_test_staging_db();
    db.conn
        .execute_batch("INSERT INTO test_entries (\"UUID\", \"Name\", \"_is_deleted\") VALUES ('a', 'A', 0), ('b', 'B', 1)")
        .unwrap();
    let all = |db: &StagingDb| rows_of(&db.conn, "SELECT * FROM test_entries ORDER BY \"UUID\"", &[]).unwrap().1;
    let write = |pk: &str, name: &str, new: bool| {
        let mut cols = TextMap::new();
        cols.insert("UUID".to_string(), pk.to_string());
        cols.insert("Name".to_string(), name.to_string());
        cols.insert("Unknown:Column".to_string(), "x".to_string());
        upsert(&db, "test_entries", &cols, new).unwrap();
    };
    snapshot(&db, "start").unwrap();
    add_entry(&db, "n-1");
    snapshot(&db, "one").unwrap();
    let before = all(&db);
    write("a", "A2", false);
    write("n-1", "N", true);
    write("n-2", "M", false);
    assert!(mark_deleted(&db, "test_entries", "a").unwrap());
    assert!(unmark_deleted(&db, "test_entries", "b").unwrap());
    assert!(mark_deleted(&db, "test_entries", "n-1").unwrap());
    assert!(!mark_deleted(&db, "test_entries", "none").unwrap());
    assert!(!unmark_deleted(&db, "test_entries", "none").unwrap());
    snapshot(&db, "two").unwrap();
    let after = all(&db);
    let named = |list: Vec<UndoReplayEntry>| -> Vec<(String, String)> {
        list.into_iter().map(|r| (r.pk_value, r.action)).collect()
    };
    let pairs = |list: &[(&str, &str)]| -> Vec<(String, String)> {
        list.iter().map(|(k, a)| (k.to_string(), a.to_string())).collect()
    };
    assert_eq!(
        named(undo(&db).unwrap()),
        pairs(&[
            ("n-1", "insert"),
            ("b", "update"),
            ("a", "update"),
            ("n-2", "delete"),
            ("n-1", "update"),
            ("a", "update"),
        ])
    );
    assert_eq!(all(&db), before);
    assert_eq!(
        named(redo(&db).unwrap()),
        pairs(&[
            ("a", "update"),
            ("n-1", "update"),
            ("n-2", "insert"),
            ("a", "update"),
            ("b", "update"),
            ("n-1", "delete"),
        ])
    );
    assert_eq!(all(&db), after);
    assert!(redo(&db).unwrap().is_empty());
}
