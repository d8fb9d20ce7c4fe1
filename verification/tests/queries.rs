use bg3_refdb::lookups::{
    cost_query, equipment_query, list_items_query, localization_query, progression_query,
    progression_targets, query_cost_resources, query_equipment_names, query_icon_atlas_data, query_icon_names, query_list_items,
    query_localization_map, query_progression_table_uuids, query_selector_ids, query_value_lists,
    query_voice_table_uuids, selector_query, sort_costs, value_lists_query, voice_query, CostRows,
    CostResourceInfo, LocaEntry, RankedCost,
};
use bg3_refdb::models::Section;
use bg3_refdb::queries::{
    db_has_equipment_data, db_has_loca_data, db_has_stats_data, db_has_valuelist_data,
    db_has_vanilla_data, filled_tables_query, folder_query, format_display_name,
    query_entries_by_folder, query_section_entries, query_stat_entries, query_stat_entry_fields,
    query_stat_field_names, query_vanilla_entries, section_query, stat_entry_query, stat_tables,
    vanilla_entries_query, StatEntryInfo, VanillaEntryInfo,
};
use bg3_refdb::scan::{
    junction_pattern, keep_data_columns, list_scan_regions, query_vanilla_lsx_by_region,
    query_vanilla_lsx_for_scan, query_vanilla_stats_for_scan, LinkRows, RegionRows, StatsRows,
};
use bg3_refdb::schema_query::{
    detect_pk_column, query_available_sections, query_db_schemas, region_to_section_name,
    split_junction, SchemaRows, SectionInfo, TableRow,
};
use bg3_refdb::select::{
    all_columns_query, effective_limit, missing_table_error, region_table_query,
    validate_table_name, Cell, NamedRow,
};
use bg3_refdb::textmap::TextMap;
use rusqlite::types::ValueRef;
use rusqlite::{Connection, OpenFlags};

// What a database is asked, and how its answers reach the library.

fn open_ro(path: &str) -> Result<Connection, String> {
    Connection::open_with_flags(path, OpenFlags::SQLITE_OPEN_READ_ONLY)
        .map_err(|e| format!("Open ref DB: {e}"))
}

fn columns_of(conn: &Connection, table: &str) -> Vec<String> {
    let mut stmt = conn
        .prepare("SELECT name FROM pragma_table_info(?1)")
        .unwrap();
    let rows = stmt.query_map([table], |row| row.get(0)).unwrap();
    rows.map(|r| r.unwrap()).collect()
}

fn named_rows(
    conn: &Connection,
    sql: &str,
    params: &[&dyn rusqlite::types::ToSql],
    columns: usize,
) -> Result<Vec<NamedRow>, String> {
    let mut stmt = conn.prepare(sql).map_err(|e| format!("Prepare: {e}"))?;
    let rows = stmt
        .query_map(params, |row| {
            let key: String = row.get(0)?;
            let cells = (0..columns)
                .map(|i| row.get::<_, Option<String>>(i + 1).ok().flatten())
                .collect();
            Ok(NamedRow { key, cells })
        })
        .map_err(|e| format!("Query: {e}"))?;
    rows.map(|r| r.map_err(|e| format!("Row: {e}"))).collect()
}

fn cell(v: ValueRef) -> Cell {
    match v {
        ValueRef::Null => Cell::Null,
        ValueRef::Integer(n) => Cell::Integer(n),
        ValueRef::Real(f) => Cell::Real(f.to_string()),
        ValueRef::Text(s) => Cell::Text(std::str::from_utf8(s).unwrap_or("").to_string()),
        ValueRef::Blob(_) => Cell::Blob,
    }
}

fn cell_rows(conn: &Connection, sql: &str, params: &[&dyn rusqlite::types::ToSql], n: usize) -> Vec<Vec<Cell>> {
    let mut stmt = conn.prepare(sql).unwrap();
    let rows = stmt
        .query_map(params, |row| Ok((0..n).map(|i| cell(row.get_ref(i).unwrap())).collect()))
        .unwrap();
    rows.map(|r| r.unwrap()).collect()
}

fn region_table(conn: &Connection, region: &str) -> Result<String, String> {
    conn.query_row(&region_table_query(), [region], |row| row.get(0))
        .map_err(|e| missing_table_error(region, &e.to_string()))
}

fn node_of(conn: &Connection, table: &str) -> String {
    conn.query_row(
        "SELECT COALESCE(node_id, '') FROM _table_meta WHERE table_name = ?1",
        [table],
        |row| row.get(0),
    )
    .unwrap_or_default()
}

fn pk_of(conn: &Connection, table: &str) -> Option<String> {
    conn.query_row(
        "SELECT name FROM pragma_table_info(?1) WHERE pk = 1",
        [table],
        |row| row.get(0),
    )
    .ok()
}

fn sections_in(conn: &Connection) -> Result<(Vec<TableRow>, Vec<(String, String)>), String> {
    let mut stmt = conn
        .prepare(
            "SELECT table_name, source_type, region_id, node_id, row_count FROM _table_meta \
             WHERE source_type != 'junction' AND row_count > 0 \
             ORDER BY source_type, region_id, table_name",
        )
        .map_err(|e| format!("Prepare sections: {e}"))?;
    let rows = stmt
        .query_map([], |row| {
            let table_name: String = row.get(0)?;
            Ok(TableRow {
                key: pk_of(conn, &table_name),
                table_name,
                source_type: row.get(1)?,
                region_id: row.get::<_, Option<String>>(2)?.unwrap_or_default(),
                node_id: row.get::<_, Option<String>>(3)?.unwrap_or_default(),
                row_count: row.get(4)?,
            })
        })
        .map_err(|e| format!("Query sections: {e}"))?;
    let tables = rows.filter_map(|r| r.ok()).collect();
    let mut stmt = conn
        .prepare(
            "SELECT table_name, parent_tables FROM _table_meta \
             WHERE source_type = 'junction' AND row_count > 0",
        )
        .map_err(|e| format!("Prepare junctions: {e}"))?;
    let rows = stmt
        .query_map([], |row| {
            Ok((row.get(0)?, row.get::<_, Option<String>>(1)?.unwrap_or_default()))
        })
        .map_err(|e| format!("Query junctions: {e}"))?;
    Ok((tables, rows.filter_map(|r| r.ok()).collect()))
}

fn available_sections(conn: &Connection) -> Result<Vec<SectionInfo>, String> {
    query_available_sections(sections_in(conn))
}

fn section_entries(
    conn: &Connection,
    region: &str,
    limit: Option<usize>,
    offset: Option<usize>,
) -> Result<Vec<VanillaEntryInfo>, String> {
    let table = region_table(conn, region)?;
    let (sql, columns) = section_query(&table, &columns_of(conn, &table))?;
    let off = offset.unwrap_or(0) as i64;
    let rows = named_rows(conn, &sql, &[&effective_limit(limit), &off], columns.len());
    query_section_entries(&node_of(conn, &table), &columns, rows)
}

fn filled(conn: &Connection, source_type: &str) -> Option<i64> {
    conn.query_row(&filled_tables_query(source_type), [], |row| row.get(0)).ok()
}

fn filled_stats(conn: &Connection) -> Vec<String> {
    let mut stmt = conn
        .prepare("SELECT table_name FROM _table_meta WHERE source_type = 'stats' AND row_count > 0")
        .unwrap();
    let rows = stmt.query_map([], |row| row.get(0)).unwrap();
    rows.map(|r| r.unwrap()).collect()
}

fn stat_entries(conn: &Connection, entry_type: &str) -> Result<Vec<StatEntryInfo>, String> {
    let mut found = Vec::new();
    for t in stat_tables(entry_type, &filled_stats(conn))? {
        let sql = format!("SELECT \"_entry_name\" FROM \"{t}\" ORDER BY \"_entry_name\"");
        if let Ok(mut stmt) = conn.prepare(&sql) {
            let rows = stmt.query_map([], |row| row.get(0)).unwrap();
            let names: Vec<String> = rows.map(|r| r.unwrap()).collect();
            found.push((t, names));
        }
    }
    Ok(query_stat_entries(&found))
}

fn stat_field_names(conn: &Connection, entry_type: &str) -> Result<Vec<String>, String> {
    let tables = stat_tables(entry_type, &filled_stats(conn))?;
    let columns = tables.iter().map(|t| columns_of(conn, t)).collect();
    Ok(query_stat_field_names(&columns))
}

fn stat_fields(conn: &Connection, name: &str, entry_type: &str) -> Result<TextMap<String>, String> {
    let table = stat_tables(entry_type, &vec![])?.remove(0);
    let columns = columns_of(conn, &table);
    let sql = stat_entry_query(&table, &columns);
    let mut rows = cell_rows(conn, &sql, &[&name], columns.len());
    Ok(query_stat_entry_fields(&columns, &rows.pop()))
}

fn localization_map(conn: &Connection) -> Result<Vec<LocaEntry>, String> {
    let table: String = conn
        .query_row(
            "SELECT table_name FROM _table_meta WHERE source_type = 'loca' AND row_count > 0 LIMIT 1",
            [],
            |row| row.get(0),
        )
        .map_err(|e| format!("No loca table: {e}"))?;
    let sql = localization_query(&table)?;
    let mut stmt = conn.prepare(&sql).map_err(|e| format!("Prepare: {e}"))?;
    let rows = stmt
        .query_map([], |row| Ok((row.get(0)?, row.get(1)?)))
        .map_err(|e| format!("Query: {e}"))?;
    let rows = rows.map(|r| r.unwrap()).collect();
    Ok(query_localization_map(&rows))
}

fn create_test_db() -> Connection {
    let conn = Connection::open_in_memory().unwrap();
    conn.execute_batch(
        "CREATE TABLE _table_meta (
            table_name TEXT PRIMARY KEY,
            source_type TEXT NOT NULL,
            region_id TEXT,
            node_id TEXT,
            parent_tables TEXT,
            row_count INTEGER DEFAULT 0
        );",
    )
    .unwrap();
    conn
}

fn seed_lsx_section(conn: &Connection) {
    conn.execute_batch(
        "CREATE TABLE \"lsx__Races__Race\" (
            \"UUID\" TEXT PRIMARY KEY,
            \"Name\" TEXT,
            \"DisplayName\" TEXT,
            \"ParentGuid\" TEXT,
            \"Color\" TEXT
        );
        INSERT INTO \"lsx__Races__Race\" VALUES
            ('uuid-1', 'Human', 'Human', '', ''),
            ('uuid-2', 'Elf', 'Elf', 'uuid-1', ''),
            ('uuid-3', 'Dwarf', '', '', '');
        INSERT INTO _table_meta VALUES
            ('lsx__Races__Race', 'lsx', 'Races', 'Race', NULL, 3);",
    )
    .unwrap();
}

fn seed_progressions_section(conn: &Connection) {
    conn.execute_batch(
        "CREATE TABLE \"lsx__Progressions__Progression\" (
            \"UUID\" TEXT PRIMARY KEY,
            \"Name\" TEXT,
            \"Level\" TEXT
        );
        INSERT INTO \"lsx__Progressions__Progression\" VALUES
            ('prog-1', 'Fighter', '5'),
            ('prog-2', 'Rogue', '3');
        INSERT INTO _table_meta VALUES
            ('lsx__Progressions__Progression', 'lsx', 'Progressions', 'Progression', NULL, 2);",
    )
    .unwrap();
}

fn seed_with_junction(conn: &Connection) {
    conn.execute_batch(
        "CREATE TABLE \"lsx__ClassDescriptions__ClassDescription\" (
            \"UUID\" TEXT PRIMARY KEY,
            \"Name\" TEXT
        );
        INSERT INTO \"lsx__ClassDescriptions__ClassDescription\" VALUES
            ('cls-1', 'Fighter'),
            ('cls-2', 'Wizard');

        CREATE TABLE \"lsx__ClassDescriptions__SubClasses\" (
            \"UUID\" TEXT PRIMARY KEY,
            \"Name\" TEXT
        );
        INSERT INTO \"lsx__ClassDescriptions__SubClasses\" VALUES
            ('sub-1', 'Champion'),
            ('sub-2', 'Evocation');

        CREATE TABLE \"lsx__ClassDescriptions__ClassDescription__to__SubClasses\" (
            parent_id TEXT NOT NULL,
            child_id TEXT NOT NULL,
            PRIMARY KEY (parent_id, child_id)
        );
        INSERT INTO \"lsx__ClassDescriptions__ClassDescription__to__SubClasses\" VALUES
            ('cls-1', 'sub-1'),
            ('cls-2', 'sub-2');

        INSERT INTO _table_meta VALUES
            ('lsx__ClassDescriptions__ClassDescription', 'lsx', 'ClassDescriptions', 'ClassDescription', NULL, 2),
            ('lsx__ClassDescriptions__SubClasses', 'lsx', 'ClassDescriptions', 'SubClasses', NULL, 2),
            ('lsx__ClassDescriptions__ClassDescription__to__SubClasses', 'junction', NULL, NULL,
             'lsx__ClassDescriptions__ClassDescription,lsx__ClassDescriptions__SubClasses', 2);",
    )
    .unwrap();
}

fn seed_stats(conn: &Connection) {
    conn.execute_batch(
        "CREATE TABLE \"stats__SpellData\" (
            \"_entry_name\" TEXT PRIMARY KEY,
            \"_file_id\" INTEGER,
            \"_type\" TEXT,
            \"_using\" TEXT,
            \"SpellType\" TEXT,
            \"Level\" TEXT,
            \"DisplayName\" TEXT
        );
        INSERT INTO \"stats__SpellData\" VALUES
            ('Fireball', 1, 'SpellData', 'Projectile_MainHandAttack', 'Projectile', '3', 'Fireball'),
            ('MagicMissile', 2, 'SpellData', NULL, 'Projectile', '1', 'Magic Missile');
        INSERT INTO _table_meta VALUES
            ('stats__SpellData', 'stats', NULL, NULL, NULL, 2);",
    )
    .unwrap();
}

fn seed_loca(conn: &Connection) {
    conn.execute_batch(
        "CREATE TABLE \"loca__english\" (
            \"contentuid\" TEXT PRIMARY KEY,
            \"text\" TEXT
        );
        INSERT INTO \"loca__english\" VALUES
            ('h0001', 'Hello World'),
            ('h0002', 'Goodbye');
        INSERT INTO _table_meta VALUES
            ('loca__english', 'loca', NULL, NULL, NULL, 2);",
    )
    .unwrap();
}

#[test]
fn available_sections_returns_populated_lsx_tables() {
    let conn = create_test_db();
    seed_lsx_section(&conn);

    let sections = available_sections(&conn).unwrap();
    assert_eq!(sections.len(), 1);
    assert_eq!(sections[0].region_id, "Races");
    assert_eq!(sections[0].source_type, "lsx");
    assert_eq!(sections[0].row_count, 3);
    assert_eq!(sections[0].pk_column, "UUID");
    assert!(sections[0].children.is_empty());
}

#[test]
fn available_sections_nests_junction_children() {
    let conn = create_test_db();
    seed_with_junction(&conn);

    let sections = available_sections(&conn).unwrap();
    assert_eq!(
        sections.len(),
        1,
        "Child table should not appear at top level"
    );
    let parent = &sections[0];
    assert_eq!(parent.region_id, "ClassDescriptions");
    assert_eq!(parent.node_id, "ClassDescription");
    assert_eq!(parent.children.len(), 1);

    let child = &parent.children[0];
    assert_eq!(child.child_node_id, "SubClasses");
    assert_eq!(child.child_row_count, 2);
    assert!(child.junction_table.contains("__to__"));
}

#[test]
fn available_sections_includes_stats_and_loca() {
    let conn = create_test_db();
    seed_stats(&conn);
    seed_loca(&conn);

    let sections = available_sections(&conn).unwrap();
    let types: Vec<&str> = sections.iter().map(|s| s.source_type.as_str()).collect();
    assert!(types.contains(&"stats"), "Should include stats section");
    assert!(types.contains(&"loca"), "Should include loca section");
}

#[test]
fn available_sections_empty_db_returns_empty() {
    let conn = create_test_db();
    let sections = available_sections(&conn).unwrap();
    assert!(sections.is_empty());
}

#[test]
fn section_entries_returns_all_rows() {
    let conn = create_test_db();
    seed_lsx_section(&conn);

    let entries = section_entries(&conn, "Races", None, None).unwrap();
    assert_eq!(entries.len(), 3);
    assert_eq!(entries[0].node_id, "Race");
}

#[test]
fn section_entries_display_name_prefers_displayname_attr() {
    let conn = create_test_db();
    seed_lsx_section(&conn);

    let entries = section_entries(&conn, "Races", None, None).unwrap();
    let human = entries.iter().find(|e| e.uuid == "uuid-1").unwrap();
    assert_eq!(human.display_name, "Human");
}

#[test]
fn section_entries_display_name_falls_back_to_name() {
    let conn = create_test_db();
    seed_lsx_section(&conn);

    let entries = section_entries(&conn, "Races", None, None).unwrap();
    let dwarf = entries.iter().find(|e| e.uuid == "uuid-3").unwrap();
    assert_eq!(dwarf.display_name, "Dwarf");
}

#[test]
fn section_entries_display_name_falls_back_to_uuid() {
    let conn = create_test_db();
    conn.execute_batch(
        "CREATE TABLE \"lsx__Misc__Thing\" (
            \"UUID\" TEXT PRIMARY KEY,
            \"Value\" TEXT
        );
        INSERT INTO \"lsx__Misc__Thing\" VALUES ('bare-uuid', '42');
        INSERT INTO _table_meta VALUES
            ('lsx__Misc__Thing', 'lsx', 'Misc', 'Thing', NULL, 1);",
    )
    .unwrap();

    let entries = section_entries(&conn, "Misc", None, None).unwrap();
    assert_eq!(entries.len(), 1);
    assert_eq!(entries[0].display_name, "bare-uuid");
}

#[test]
fn section_entries_level_appended_when_present() {
    let conn = create_test_db();
    seed_progressions_section(&conn);

    let entries = section_entries(&conn, "Progressions", None, None).unwrap();
    let fighter = entries.iter().find(|e| e.uuid == "prog-1").unwrap();
    assert_eq!(fighter.display_name, "Fighter Lv5");
}

#[test]
fn section_entries_pagination_works() {
    let conn = create_test_db();
    seed_lsx_section(&conn);

    let page1 = section_entries(&conn, "Races", Some(2), None).unwrap();
    assert_eq!(page1.len(), 2);

    let page2 = section_entries(&conn, "Races", Some(2), Some(2)).unwrap();
    assert_eq!(page2.len(), 1);
}

#[test]
fn section_entries_includes_parent_guid() {
    let conn = create_test_db();
    seed_lsx_section(&conn);

    let entries = section_entries(&conn, "Races", None, None).unwrap();
    let elf = entries.iter().find(|e| e.uuid == "uuid-2").unwrap();
    assert_eq!(elf.parent_guid.as_deref(), Some("uuid-1"));
}

#[test]
fn db_has_vanilla_data_true_when_populated() {
    let conn = create_test_db();
    seed_lsx_section(&conn);
    assert!(db_has_vanilla_data(true, filled(&conn, "lsx")));
}

#[test]
fn db_has_stats_data_true_when_populated() {
    let conn = create_test_db();
    seed_stats(&conn);
    assert!(db_has_stats_data(true, filled(&conn, "stats")));
}

#[test]
fn db_has_loca_data_true_when_populated() {
    let conn = create_test_db();
    seed_loca(&conn);
    assert!(db_has_loca_data(true, filled(&conn, "loca")));
}

#[test]
fn query_stat_entries_returns_sorted() {
    let conn = create_test_db();
    seed_stats(&conn);

    let entries = stat_entries(&conn, "SpellData").unwrap();
    assert_eq!(entries.len(), 2);
    assert_eq!(entries[0].name, "Fireball");
    assert_eq!(entries[1].name, "MagicMissile");
    assert_eq!(entries[0].entry_type, "SpellData");
}

#[test]
fn query_stat_entries_all_types() {
    let conn = create_test_db();
    seed_stats(&conn);

    let entries = stat_entries(&conn, "").unwrap();
    assert_eq!(entries.len(), 2);
}

#[test]
fn query_stat_field_names_excludes_internal() {
    let conn = create_test_db();
    seed_stats(&conn);

    let names = stat_field_names(&conn, "SpellData").unwrap();
    assert!(names.contains(&"SpellType".to_string()));
    assert!(names.contains(&"Level".to_string()));
    assert!(names.contains(&"DisplayName".to_string()));
    assert!(!names.contains(&"_entry_name".to_string()));
}

#[test]
fn query_stat_entry_fields_returns_known_entry_fields() {
    let conn = create_test_db();
    seed_stats(&conn);

    let fields = stat_fields(&conn, "Fireball", "SpellData").unwrap();
    assert_eq!(
        fields.get("SpellType").map(String::as_str),
        Some("Projectile")
    );
    assert_eq!(fields.get("Level").map(String::as_str), Some("3"));
    assert_eq!(
        fields.get("DisplayName").map(String::as_str),
        Some("Fireball")
    );
    assert!(!fields.contains_key("_entry_name"));
    assert!(!fields.contains_key("_file_id"));
    assert!(!fields.contains_key("_type"));
    assert!(!fields.contains_key("_using"));
}

#[test]
fn query_stat_entry_fields_unknown_entry_returns_empty() {
    let conn = create_test_db();
    seed_stats(&conn);

    let fields = stat_fields(&conn, "UnknownSpell", "SpellData").unwrap();
    assert!(fields.is_empty());
}

#[test]
fn query_localization_map_returns_entries() {
    let conn = create_test_db();
    seed_loca(&conn);

    let entries = localization_map(&conn).unwrap();
    assert_eq!(entries.len(), 2);
    assert_eq!(entries[0].handle, "h0001");
    assert_eq!(entries[0].text, "Hello World");
}

#[test]
fn available_sections_nonexistent_db_returns_error() {
    let found = match open_ro("/nonexistent/path/db.sqlite") {
        Ok(conn) => sections_in(&conn),
        Err(e) => Err(e),
    };
    let result = query_available_sections(found);
    assert!(result.is_err());
}

#[test]
fn section_entries_nonexistent_region_returns_error() {
    let conn = create_test_db();
    seed_lsx_section(&conn);

    let result = section_entries(&conn, "DoesNotExist", None, None);
    assert!(result.is_err());
    assert!(result.unwrap_err().contains("No table for region"));
}

#[test]
fn section_entries_nonexistent_db_returns_error() {
    let rows = match open_ro("/nonexistent/path/db.sqlite") {
        Ok(_) => Ok(vec![]),
        Err(e) => Err(e),
    };
    let result = query_section_entries("Race", &vec![], rows);
    assert!(result.is_err());
}

#[test]
fn db_has_vanilla_data_false_for_missing_file() {
    let path = std::path::PathBuf::from("/nonexistent/db.sqlite");
    let count = open_ro("/nonexistent/db.sqlite").ok().and_then(|c| filled(&c, "lsx"));
    assert!(!db_has_vanilla_data(path.is_file(), count));
}

#[test]
fn db_has_stats_data_false_for_missing_file() {
    let path = std::path::PathBuf::from("/nonexistent/db.sqlite");
    let count = open_ro("/nonexistent/db.sqlite").ok().and_then(|c| filled(&c, "stats"));
    assert!(!db_has_stats_data(path.is_file(), count));
}

#[test]
fn db_has_loca_data_false_for_missing_file() {
    let path = std::path::PathBuf::from("/nonexistent/db.sqlite");
    let count = open_ro("/nonexistent/db.sqlite").ok().and_then(|c| filled(&c, "loca"));
    assert!(!db_has_loca_data(path.is_file(), count));
}

#[test]
fn db_has_vanilla_data_false_for_empty_db() {
    let conn = create_test_db();
    assert!(!db_has_vanilla_data(true, filled(&conn, "lsx")));
}

#[test]
fn db_has_stats_data_false_for_empty_db() {
    let conn = create_test_db();
    assert!(!db_has_stats_data(true, filled(&conn, "stats")));
}

#[test]
fn data_must_be_in_a_file() {
    assert!(!db_has_loca_data(false, Some(4)));
    assert!(!db_has_stats_data(false, Some(4)));
    assert!(!db_has_vanilla_data(false, Some(4)));
    assert!(db_has_equipment_data(Some(1)) && !db_has_equipment_data(Some(0)));
    assert!(db_has_valuelist_data(Some(1)) && !db_has_valuelist_data(None));
}

#[test]
fn query_stat_entries_nonexistent_type_returns_empty() {
    let conn = create_test_db();
    seed_stats(&conn);

    let entries = stat_entries(&conn, "FakeType").unwrap();
    assert!(entries.is_empty());
}

#[test]
fn query_localization_map_no_loca_table_returns_error() {
    let conn = create_test_db();
    let result = localization_map(&conn);
    assert!(result.is_err());
    assert!(result.unwrap_err().contains("No loca table"));
}

#[test]
fn available_sections_skips_zero_row_count() {
    let conn = create_test_db();
    conn.execute_batch(
        "CREATE TABLE \"lsx__Empty__Node\" (\"UUID\" TEXT PRIMARY KEY);
        INSERT INTO _table_meta VALUES
            ('lsx__Empty__Node', 'lsx', 'Empty', 'Node', NULL, 0);",
    )
    .unwrap();

    let sections = available_sections(&conn).unwrap();
    assert!(
        sections.is_empty(),
        "Tables with row_count=0 should be excluded"
    );
}

#[test]
fn detect_pk_column_returns_rowid_when_no_pk() {
    let conn = Connection::open_in_memory().unwrap();
    conn.execute_batch("CREATE TABLE no_pk (a TEXT, b TEXT);")
        .unwrap();

    assert_eq!(detect_pk_column("no_pk", &pk_of(&conn, "no_pk")), "rowid");
}

#[test]
fn detect_pk_column_finds_explicit_pk() {
    let conn = Connection::open_in_memory().unwrap();
    conn.execute_batch("CREATE TABLE with_pk (\"MapKey\" TEXT PRIMARY KEY, val TEXT);")
        .unwrap();

    assert_eq!(detect_pk_column("with_pk", &pk_of(&conn, "with_pk")), "MapKey");
}

#[test]
fn validate_table_name_accepts_valid_names() {
    assert!(validate_table_name("lsx__Races__Race").is_ok());
    assert!(validate_table_name("stats__SpellData").is_ok());
    assert!(validate_table_name("loca__english").is_ok());
    assert!(validate_table_name("valuelist_entries").is_ok());
    assert!(
        validate_table_name("lsx__ClassDescriptions__ClassDescription__to__SubClasses").is_ok()
    );
    assert!(validate_table_name("_table_meta").is_ok());
}

#[test]
fn validate_table_name_rejects_empty() {
    let result = validate_table_name("");
    assert!(result.is_err());
    assert!(result.unwrap_err().contains("must not be empty"));
}

#[test]
fn validate_table_name_rejects_sql_injection_attempts() {
    assert!(validate_table_name("foo\" OR 1=1 --").is_err());
    assert!(validate_table_name("foo; DROP TABLE _table_meta").is_err());
    assert!(validate_table_name("foo'bar").is_err());
    assert!(validate_table_name("foo bar").is_err());
    assert!(validate_table_name("foo()").is_err());
    assert!(validate_table_name("foo--bar").is_err());
}

#[test]
fn validate_table_name_rejects_non_ascii() {
    assert!(validate_table_name("table_na\u{ef}ve").is_err());
    assert!(validate_table_name("\u{8868}\u{540d}").is_err());
}

#[test]
fn query_stat_entries_rejects_malicious_entry_type() {
    let conn = create_test_db();
    seed_stats(&conn);

    let result = stat_entries(&conn, "SpellData\" OR 1=1 --");
    assert!(result.is_err());
    assert!(result.err().unwrap().contains("Invalid table name"));
}

#[test]
fn query_stat_field_names_rejects_malicious_entry_type() {
    let conn = create_test_db();
    seed_stats(&conn);

    let result = stat_field_names(&conn, "foo; DROP TABLE x");
    assert!(result.is_err());
    assert!(result.err().unwrap().contains("Invalid table name"));
}

#[test]
fn detect_pk_column_returns_rowid_for_invalid_name() {
    assert_eq!(detect_pk_column("bad name!", &Some("a".to_string())), "rowid");
}

fn section(name: &str, regions: &[&str]) -> Section {
    Section {
        name: name.to_string(),
        region_id: regions[0].to_string(),
        region_ids: regions.iter().map(|r| r.to_string()).collect(),
    }
}

#[test]
fn vanilla_entries_are_shown_as_their_section_asks() {
    let conn = create_test_db();
    seed_lsx_section(&conn);
    seed_progressions_section(&conn);
    let ask = |s: &Section| {
        let table = region_table(&conn, &s.region_id).unwrap();
        let (sql, columns) = vanilla_entries_query(&table, &columns_of(&conn, &table)).unwrap();
        let rows = named_rows(&conn, &sql, &[&-1i64, &0i64], columns.len()).unwrap();
        query_vanilla_entries(s, &node_of(&conn, &table), &columns, &rows)
    };
    let races = ask(&section("Races", &["Races"]));
    assert_eq!(races[1].display_name, "Elf");
    assert_eq!(races[1].parent_guid.as_deref(), Some("uuid-1"));
    assert_eq!(races[0].parent_guid, None);
    let progressions = ask(&section("Progressions", &["Progressions"]));
    assert_eq!(progressions[0].display_name, "Fighter Lv5");
    assert_eq!(progressions[0].node_id, "Progression");

    assert_eq!(format_display_name("Progressions", "N", &None, &None, &None), "N Lv?");
    let some = Some("C".to_string());
    assert_eq!(format_display_name("Lists", "N", &None, &some, &None), "C");
    assert_eq!(format_display_name("Origins", "N", &None, &None, &some), "C");
    assert_eq!(format_display_name("Origins", "N", &None, &None, &Some(String::new())), "N");
    assert_eq!(format_display_name("Feats", "N", &None, &some, &some), "N");
    assert!(vanilla_entries_query("no table", &vec![]).is_err());
}

#[test]
fn folders_list_each_key_once() {
    let columns = vec!["Name".to_string(), "UIColor".to_string()];
    let row = |key: &str, name: &str| NamedRow {
        key: key.to_string(),
        cells: vec![Some(name.to_string()), Some("#ff".to_string())],
    };
    let rows = vec![row("a", "A"), row("", "none"), row("a", "again"), row("b", "B")];
    let entries = query_entries_by_folder("Node", &columns, &rows);
    let keys: Vec<&str> = entries.iter().map(|e| e.uuid.as_str()).collect();
    assert_eq!(keys, vec!["a", "b"]);
    assert_eq!(entries[0].display_name, "A");
    assert_eq!(entries[0].color.as_deref(), Some("#ff"));
    let (sql, kept) = folder_query("lsx__T", &vec!["MapKey".to_string(), "Color".to_string()]).unwrap();
    assert_eq!(sql, "SELECT \"MapKey\", \"Color\" FROM \"lsx__T\" ORDER BY \"MapKey\"");
    assert_eq!(kept, vec!["Color"]);
}

#[test]
fn text_handles_end_at_the_semicolon() {
    let columns = vec!["Text".to_string()];
    let rows = vec![NamedRow {
        key: "k".to_string(),
        cells: vec![Some("h123;4".to_string())],
    }];
    let entries = query_section_entries("N", &columns, Ok(rows)).unwrap();
    assert_eq!(entries[0].text_handle.as_deref(), Some("h123"));
    assert_eq!(entries[0].display_name, "k");
}

#[test]
fn lists_give_their_first_items() {
    let conn = create_test_db();
    conn.execute_batch(
        "CREATE TABLE \"lsx__Lists\" (\"UUID\" TEXT PRIMARY KEY, \"Comment\" TEXT, \"Passives\" TEXT, \"Spells\" TEXT);
         INSERT INTO \"lsx__Lists\" VALUES ('l-1', 'First', 'P1', ''), ('l-2', NULL, 'P2', ' S1 ;; S2');
         INSERT INTO _table_meta VALUES ('lsx__Lists', 'lsx', 'Lists', 'SpellList', NULL, 2);",
    )
    .unwrap();
    let table = region_table(&conn, "Lists").unwrap();
    let (sql, columns) = list_items_query(&table, &columns_of(&conn, &table), 2).unwrap();
    let rows = named_rows(&conn, &sql, &[&"l-1", &"l-2"], columns.len()).unwrap();
    let lists = query_list_items(&node_of(&conn, &table), &columns, &rows);
    let first = lists.iter().find(|l| l.uuid == "l-1").unwrap();
    assert_eq!((first.item_key.as_str(), first.items.clone()), ("Passives", vec!["P1".to_string()]));
    assert_eq!(first.display_name, "First");
    let second = lists.iter().find(|l| l.uuid == "l-2").unwrap();
    assert_eq!(second.item_key, "Spells");
    assert_eq!(second.items, vec!["S1", "S2"]);
}

#[test]
fn resources_are_sorted_without_regard_to_case() {
    let columns = vec!["MaxLevel".to_string(), "DisplayName".to_string(), "Comment".to_string()];
    let row = |name: &str, level: &str, display: &str| NamedRow {
        key: name.to_string(),
        cells: vec![Some(level.to_string()), Some(display.to_string()), None],
    };
    let groups = vec![
        CostRows {
            kind: "resource".to_string(),
            columns,
            rows: vec![row("b", "3", "beta"), row("a", "x", "Alpha"), row("c", "9999999999", "")],
        },
        CostRows {
            kind: "group".to_string(),
            columns: vec!["Comment".to_string()],
            rows: vec![NamedRow { key: "g".to_string(), cells: vec![Some("G".to_string())] }],
        },
    ];
    let costs = query_cost_resources(&groups);
    let names: Vec<&str> = costs.iter().map(|c| c.name.as_str()).collect();
    assert_eq!(names, vec!["g", "a", "b", "c"]);
    assert_eq!(costs[2].max_level, 3);
    assert_eq!(costs[1].max_level, 0);
    assert_eq!(costs[3].max_level, 0);
    assert_eq!(costs[3].display_name, "c");
    assert_eq!(costs[0].display_name, "G");

    let ranked = |name: &str, display_key: &str| RankedCost {
        info: CostResourceInfo {
            name: name.to_string(),
            display_name: String::new(),
            max_level: 0,
            kind: "k".to_string(),
        },
        display_key: display_key.to_string(),
        name_key: name.to_string(),
    };
    let sorted = sort_costs(vec![ranked("z", "b"), ranked("y", "a"), ranked("x", "b")]);
    let names: Vec<&str> = sorted.iter().map(|c| c.name.as_str()).collect();
    assert_eq!(names, vec!["y", "x", "z"]);

    let none = cost_query("lsx__T", &vec!["UUID".to_string()], true).unwrap();
    assert!(none.is_none());
    let (sql, kept) = cost_query("lsx__T", &vec!["Name".to_string(), "MaxLevel".to_string()], true)
        .unwrap()
        .unwrap();
    assert_eq!(sql, "SELECT \"Name\", \"MaxLevel\" FROM \"lsx__T\" ORDER BY \"Name\"");
    assert_eq!(kept, vec!["MaxLevel"]);
}

#[test]
fn upper_case_letters_beyond_ascii_are_lowered() {
    let row = |name: &str| NamedRow { key: name.to_string(), cells: vec![] };
    let groups = vec![CostRows {
        kind: "resource".to_string(),
        columns: vec![],
        rows: vec![row("\u{c4}B"), row("\u{e4}a")],
    }];
    let costs = query_cost_resources(&groups);
    assert_eq!(costs[0].name, "\u{e4}a");
}

#[test]
fn progression_tables_are_listed_once() {
    assert_eq!(progression_targets()[2], ("Races", "ProgressionTableUUID"));
    let pair = |u: &str, n: &str| (u.to_string(), n.to_string());
    let found = vec![
        ("Progressions".to_string(), vec![pair("t-1", "Fighter"), pair("t-2", "")]),
        ("Races".to_string(), vec![pair("t-1", "Elf"), pair("t-3", "Elf")]),
    ];
    let tables = query_progression_table_uuids(&found);
    let names: Vec<&str> = tables.iter().map(|t| t.display_name.as_str()).collect();
    assert_eq!(names, vec!["Elf (Race)", "Fighter", "t-2"]);
    assert_eq!(tables[0].node_id, "ProgressionTable");
    let (sql, named) = progression_query(
        "lsx__P",
        "TableUUID",
        &vec!["TableUUID".to_string(), "Name".to_string()],
    )
    .unwrap()
    .unwrap();
    assert!(named);
    assert_eq!(
        sql,
        "SELECT \"TableUUID\", \"Name\" FROM \"lsx__P\" WHERE \"TableUUID\" IS NOT NULL AND \"TableUUID\" != ''"
    );
    assert!(progression_query("lsx__P", "TableUUID", &vec![]).unwrap().is_none());
}

#[test]
fn voice_tables_are_listed_once() {
    let (sql, columns) = voice_query(
        "lsx__V",
        &vec!["UUID".to_string(), "TableUUID".to_string(), "DisplayName".to_string()],
    )
    .unwrap();
    assert_eq!(sql, "SELECT \"UUID\", \"TableUUID\", \"DisplayName\" FROM \"lsx__V\"");
    let row = |key: &str, table: &str, name: &str| NamedRow {
        key: key.to_string(),
        cells: vec![Some(table.to_string()), Some(name.to_string())],
    };
    let rows = vec![row("u-1", "t-1", "Zoe"), row("u-2", "t-1", "Again"), row("u-3", "", "Ann")];
    let voices = query_voice_table_uuids(&columns, &rows);
    let keys: Vec<(&str, &str)> = voices
        .iter()
        .map(|v| (v.uuid.as_str(), v.display_name.as_str()))
        .collect();
    assert_eq!(keys, vec![("u-3", "Ann"), ("t-1", "Zoe")]);
}

#[test]
fn selectors_are_vanilla() {
    let ids = query_selector_ids(&vec!["a".to_string(), "b".to_string()]);
    assert_eq!(ids[1], ("b".to_string(), "Vanilla".to_string()));
    assert!(selector_query("lsx__P", &vec![]).unwrap().is_none());
    assert!(selector_query("bad name", &vec![]).is_err());
    let sql = selector_query("lsx__P", &vec!["SelectorId".to_string()]).unwrap().unwrap();
    assert!(sql.starts_with("SELECT DISTINCT \"SelectorId\" FROM \"lsx__P\" WHERE"));
}

#[test]
fn value_lists_are_grouped_by_key() {
    let pair = |k: &str, v: &str| (k.to_string(), v.to_string());
    let rows = vec![pair("A", "1"), pair("A", "2"), pair("B", "1"), pair("A", "3")];
    let lists = query_value_lists(&rows);
    assert_eq!(lists.len(), 3);
    assert_eq!(lists[0], ("A".to_string(), vec!["1".to_string(), "2".to_string()]));
    let total: usize = lists.iter().map(|l| l.1.len()).sum();
    assert_eq!(total, rows.len());
    assert!(value_lists_query("").ends_with("ORDER BY list_key, value_index"));
    assert!(value_lists_query("A").contains("list_key = ?1"));
}

#[test]
fn icons_are_joined_with_their_atlas() {
    let paths = vec![(1i64, "a.dds".to_string()), (1, "other.dds".to_string()), (2, "b.dds".to_string())];
    let row = |k: &str, f: i64| (k.to_string(), f);
    let rows = vec![row("zed", 2), row("icon", 1), row("icon", 2), row("lost", 3), row("", 1)];
    let icons = query_icon_atlas_data(&paths, &rows);
    let got: Vec<(&str, &str, usize)> = icons
        .iter()
        .map(|i| (i.map_key.as_str(), i.atlas_path.as_str(), i.row))
        .collect();
    assert_eq!(got, vec![("icon", "a.dds", 1), ("zed", "b.dds", 0)]);
    let names = query_icon_names(&vec![
        vec!["b".to_string(), "a".to_string()],
        vec!["a".to_string(), "c".to_string()],
    ]);
    assert_eq!(names, vec!["a", "b", "c"]);
}

#[test]
fn schemas_come_from_metadata() {
    let table = |name: &str, region: &str, node: &str, rows: i64| TableRow {
        table_name: name.to_string(),
        source_type: "lsx".to_string(),
        region_id: region.to_string(),
        node_id: node.to_string(),
        row_count: rows,
        key: None,
    };
    let column = |t: &str, c: &str, ty: Option<&str>| {
        (t.to_string(), c.to_string(), ty.map(|s| s.to_string()))
    };
    let rows = SchemaRows {
        tables: vec![
            table("lsx__Races__Race", "Races", "Race", 9),
            table("lsx__Races__Other", "Races", "Race", 3),
            table("lsx__Races__EyeColors", "Races", "EyeColors", 2),
            table("lsx__Color", "Color", "root", 1),
            table("lsx__None", "", "X", 1),
        ],
        junctions: vec![("lsx__Races__Race__to__EyeColors".to_string(), None)],
        columns: vec![
            column("lsx__Races__Race", "Name", Some("FixedString")),
            column("lsx__Races__Race", "UUID", None),
            column("lsx__Races__Race", "_file_id", None),
            column("lsx__Races__Race", "Age", Some("int32")),
        ],
        stats: vec![("stats__Armor".to_string(), 4)],
        stats_columns: vec![
            ("stats__Armor".to_string(), "Weight".to_string(), "float".to_string()),
            ("stats__Armor".to_string(), "_using".to_string(), "x".to_string()),
            ("stats__Armor".to_string(), "Name_version".to_string(), "x".to_string()),
        ],
    };
    let sections = vec![section("People", &["Races"]), section("Folk", &["Races", "Other"])];
    let schemas = query_db_schemas(Ok(rows), &sections).unwrap();
    assert_eq!(schemas.len(), 3);
    assert_eq!(schemas[0].section, "Folk");
    assert_eq!(schemas[0].sample_count, 9);
    let names: Vec<&str> = schemas[0].attributes.iter().map(|a| a.name.as_str()).collect();
    assert_eq!(names, vec!["UUID", "Age", "Name"]);
    assert_eq!(schemas[0].attributes[0].attr_type, "FixedString");
    assert_eq!(schemas[0].attributes[0].count, 9);
    assert_eq!(schemas[0].children.len(), 1);
    assert_eq!(schemas[0].children[0].group_id, "EyeColors");
    assert_eq!(schemas[1].node_id, "Color");
    assert_eq!(schemas[1].section, "Color");
    assert_eq!(schemas[2].section, "stats:Armor");
    assert_eq!(schemas[2].attributes.len(), 1);
    assert_eq!(region_to_section_name(&sections, "Nowhere"), "Nowhere");
    assert!(query_db_schemas(Err("no".to_string()), &sections).is_err());
    assert_eq!(
        split_junction("a__to__b__to__c"),
        Some(("a".to_string(), "b__to__c".to_string()))
    );
    assert_eq!(split_junction("ab"), None);
}

fn region_rows(conn: &Connection, region: &str) -> Option<RegionRows> {
    let table = region_table(conn, region).ok()?;
    let columns = keep_data_columns(&columns_of(conn, &table));
    let rows = cell_rows(conn, &all_columns_query(&table, &columns), &[], columns.len());
    let mut stmt = conn
        .prepare("SELECT table_name, node_id FROM _table_meta WHERE table_name LIKE ?1")
        .unwrap();
    let found: Vec<(String, Option<String>)> = stmt
        .query_map([junction_pattern(&table)], |row| Ok((row.get(0)?, row.get(1)?)))
        .unwrap()
        .map(|r| r.unwrap())
        .collect();
    let junctions = found
        .into_iter()
        .map(|(junction, node_id)| {
            let sql = format!("SELECT parent_id, child_id FROM \"{junction}\" ORDER BY parent_id");
            let mut stmt = conn.prepare(&sql).unwrap();
            let rows = stmt.query_map([], |row| Ok((row.get(0)?, row.get(1)?))).unwrap();
            let pairs = rows.map(|r| r.unwrap()).collect();
            LinkRows { junction, node_id, pairs }
        })
        .collect();
    Some(RegionRows {
        node_id: node_of(conn, &table),
        table,
        types: vec![("Name".to_string(), Some("FixedString".to_string())), ("UUID".to_string(), None)],
        columns,
        rows,
        junctions,
    })
}

#[test]
fn entries_are_read_back_whole() {
    let conn = create_test_db();
    seed_with_junction(&conn);
    conn.execute_batch(
        "UPDATE _table_meta SET parent_tables = 'x' WHERE table_name = 'lsx__ClassDescriptions__SubClasses';",
    )
    .unwrap();
    let entries = query_vanilla_lsx_by_region(&region_rows(&conn, "ClassDescriptions")).unwrap();
    assert_eq!(entries.len(), 2);
    let fighter = entries.get("cls-1").unwrap();
    assert_eq!(fighter.uuid, "cls-1");
    assert_eq!(fighter.node_id, "ClassDescription");
    assert_eq!(fighter.attributes.get("Name").unwrap().value, "Fighter");
    assert_eq!(fighter.attributes.get("Name").unwrap().attr_type, "FixedString");
    assert_eq!(fighter.attributes.get("UUID").unwrap().attr_type, "LSString");
    assert_eq!(fighter.children.len(), 1);
    assert_eq!(fighter.children[0].group_id, "SubClasses");
    assert_eq!(fighter.children[0].entries[0].object_guid, "sub-1");
    assert!(query_vanilla_lsx_by_region(&region_rows(&conn, "Nowhere")).unwrap().is_empty());
}

#[test]
fn bad_table_names_are_refused_in_scans() {
    let rows = RegionRows {
        table: "bad name".to_string(),
        node_id: String::new(),
        columns: vec![],
        types: vec![],
        rows: vec![],
        junctions: vec![],
    };
    let err = query_vanilla_lsx_by_region(&Some(rows)).unwrap_err();
    assert!(err.contains("Invalid table name"));
    let stats = vec![StatsRows { table: String::new(), columns: vec![], rows: vec![] }];
    assert!(query_vanilla_stats_for_scan(&stats).unwrap_err().contains("must not be empty"));
}

#[test]
fn sections_of_several_regions_are_merged() {
    let conn = create_test_db();
    seed_lsx_section(&conn);
    seed_progressions_section(&conn);
    let s = section("Both", &["Races", "Progressions"]);
    assert_eq!(list_scan_regions(&s), vec!["Races", "Progressions"]);
    let results = list_scan_regions(&s)
        .iter()
        .map(|r| query_vanilla_lsx_by_region(&region_rows(&conn, r)))
        .collect();
    let merged = query_vanilla_lsx_for_scan(&s, results).unwrap();
    assert_eq!(merged.len(), 5);
    let broken = query_vanilla_lsx_for_scan(
        &s,
        vec![
            Err("no".to_string()),
            query_vanilla_lsx_by_region(&region_rows(&conn, "Races")),
        ],
    );
    assert_eq!(broken.unwrap().len(), 3);
    let one = section("One", &["Races"]);
    assert!(query_vanilla_lsx_for_scan(&one, vec![Err("no".to_string())]).is_err());
}

#[test]
fn stats_are_read_back_whole() {
    let conn = create_test_db();
    seed_stats(&conn);
    let columns = columns_of(&conn, "stats__SpellData");
    let rows = cell_rows(
        &conn,
        &all_columns_query("stats__SpellData", &columns),
        &[],
        columns.len(),
    );
    let entries = query_vanilla_stats_for_scan(&vec![StatsRows {
        table: "stats__SpellData".to_string(),
        columns,
        rows,
    }])
    .unwrap();
    assert_eq!(entries.len(), 2);
    let fireball = entries.get("Fireball").unwrap();
    assert_eq!(fireball.entry_type, "SpellData");
    assert_eq!(fireball.parent.as_deref(), Some("Projectile_MainHandAttack"));
    assert_eq!(fireball.data.get("Level").map(String::as_str), Some("3"));
    assert!(!fireball.data.contains_key("_file_id"));
    assert_eq!(entries.get("MagicMissile").unwrap().parent, None);
}

#[test]
fn limits_of_zero_mean_none() {
    assert_eq!(effective_limit(None), -1);
    assert_eq!(effective_limit(Some(0)), -1);
    assert_eq!(effective_limit(Some(7)), 7);
}

#[test]
fn equipment_is_listed_by_name() {
    let conn = Connection::open_in_memory().unwrap();
    conn.execute_batch(
        "CREATE TABLE \"stats__equipment\" (\"_entry_name\");
         INSERT INTO \"stats__equipment\" VALUES ('EQP_B'), ('EQP_A'), (NULL), ('EQP_C');",
    )
    .unwrap();
    let mut stmt = conn.prepare(&equipment_query()).unwrap();
    let rows: Vec<Option<String>> = stmt
        .query_map([], |row| row.get::<_, String>(0))
        .unwrap()
        .map(|r| r.ok())
        .collect();
    assert_eq!(rows.len(), 4);
    assert_eq!(query_equipment_names(&rows), vec!["EQP_A", "EQP_B", "EQP_C"]);
}

#[test]
fn pages_give_all_entries_once() {
    let conn = create_test_db();
    seed_lsx_section(&conn);
    let uuids = |list: Vec<VanillaEntryInfo>| list.into_iter().map(|e| e.uuid).collect::<Vec<_>>();
    let all = uuids(section_entries(&conn, "Races", None, None).unwrap());
    for n in 1..=4 {
        let mut paged = Vec::new();
        for page in 0..4 {
            let entries = section_entries(&conn, "Races", Some(n), Some(page * n)).unwrap();
            assert!(entries.len() <= n);
            paged.extend(uuids(entries));
        }
        assert_eq!(paged, all);
    }
}
