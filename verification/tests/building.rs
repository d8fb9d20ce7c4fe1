use bg3_refdb::backfill::{
    backfill_orphaned_loca, backfill_statement, base_fallback_names, placeholder_count,
    placeholder_file, Backfill,
};
use bg3_refdb::batches::{
    insert_parsed_content, insert_parsed_loca, insert_source_file, update_source_file,
    SourceId, SourceIdCache,
};
use bg3_refdb::ddl::{
    build_indexes, create_data_table, create_junction_table, populate_table_meta, table_meta,
};
use bg3_refdb::discovery::discover_lsx;
use bg3_refdb::effects::effect_source;
use bg3_refdb::files::{FileEntry, FileType, TargetDb};
use bg3_refdb::fk_patterns::{match_fk_pattern, pattern_for, FkType};
use bg3_refdb::insert::process_stats;
use bg3_refdb::loca::{
    decode_xml_entities, entries_of_matches, parse_loca, parse_loca_xml_entries, ParsedLocaEntry,
};
use bg3_refdb::models::{LsxNode, LsxNodeAttribute, LsxRegion, LsxResource};
use bg3_refdb::parsed::{
    parse_loca_file, parse_lsx_resource_file, parse_stats_file, parsed_content_from_resource,
    parse_loca_entries, process_lsx, read_text_content, ParsedContent, ResourceSource,
};
use bg3_refdb::partition::{
    add_counts, file_id_at, merge_partition, num_effect_partitions, plan_insert,
    run_parallel_insert, run_pipeline_insert, zero_counts, InsertLayout, PartitionResult,
};
use bg3_refdb::row_fill::{direct_outcome, fill_node_row, make_key, row_outcome, RowOutcome};
use bg3_refdb::rows::{build_insert_plans, coerce_fk_null};
use bg3_refdb::schema::{
    ColumnDef, DiscoveredSchema, FkConstraint, JunctionDef, PkStrategy, TableSchema,
};
use bg3_refdb::schema_build::discover_schema;
use bg3_refdb::sql::{link_statement, Statement};
use bg3_refdb::textmap::TextMap;
use bg3_refdb::tree_insert::TreeInsert;
use bg3_refdb::types::{coerce_value, coerce_value_owned, SqlValue};
use rusqlite::types::Value;
use rusqlite::{params_from_iter, Connection};

fn column(name: &str, bg3_type: &str, sqlite_type: &str) -> ColumnDef {
    ColumnDef {
        name: name.to_string(),
        bg3_type: bg3_type.to_string(),
        sqlite_type: sqlite_type.to_string(),
    }
}

fn test_schema() -> DiscoveredSchema {
    let mut tables = TextMap::new();
    tables.insert(
        "loca__english".to_string(),
        TableSchema {
            table_name: "loca__english".to_string(),
            pk_strategy: PkStrategy::ContentUid,
            source_type: "loca".to_string(),
            region_id: None,
            node_id: None,
            columns: vec![
                column("version", "int32", "INTEGER"),
                column("text", "LSString", "TEXT"),
            ],
            fk_constraints: Vec::new(),
            has_file_id: true,
            parent_tables: Vec::new(),
        },
    );
    tables.insert(
        "stats__PassiveData".to_string(),
        TableSchema {
            table_name: "stats__PassiveData".to_string(),
            pk_strategy: PkStrategy::EntryName,
            source_type: "stats".to_string(),
            region_id: None,
            node_id: None,
            columns: vec![column("DisplayName", "TranslatedString", "TEXT")],
            fk_constraints: vec![FkConstraint {
                source_column: "DisplayName".to_string(),
                target_table: "loca__english".to_string(),
                target_column: "contentuid".to_string(),
            }],
            has_file_id: false,
            parent_tables: Vec::new(),
        },
    );

    DiscoveredSchema {
        tables,
        renames: TextMap::new(),
        region_node_ids: TextMap::new(),
        junction_tables: Vec::new(),
        junction_lookup: TextMap::new(),
    }
}

const META: &str = "CREATE TABLE _sources (id INTEGER PRIMARY KEY, name TEXT NOT NULL UNIQUE);
    CREATE TABLE _source_files (
        file_id INTEGER PRIMARY KEY,
        path TEXT NOT NULL UNIQUE,
        file_type TEXT NOT NULL,
        mod_name TEXT,
        region_id TEXT,
        row_count INTEGER DEFAULT 0,
        file_size INTEGER
    );
    CREATE TABLE _table_meta (
        table_name TEXT PRIMARY KEY,
        source_type TEXT NOT NULL,
        region_id TEXT,
        node_id TEXT,
        parent_tables TEXT,
        row_count INTEGER DEFAULT 0
    );";

const LOCA: &str = "(contentuid TEXT PRIMARY KEY, _file_id INTEGER NOT NULL, version INTEGER, text TEXT);";

fn create_test_conn() -> Connection {
    let conn = Connection::open_in_memory().unwrap();
    conn.execute_batch(META).unwrap();
    conn.execute_batch(&format!("CREATE TABLE loca__english {LOCA}")).unwrap();
    conn.execute_batch(
        "CREATE TABLE \"stats__PassiveData\" (_entry_name TEXT PRIMARY KEY, DisplayName TEXT);",
    )
    .unwrap();
    conn
}

fn stored(v: &SqlValue) -> Value {
    match v {
        SqlValue::Null => Value::Null,
        SqlValue::Integer(n) => Value::Integer(*n),
        SqlValue::Real(s) => match s.parse::<f64>() {
            Ok(f) if f.is_finite() => Value::Real(f),
            _ => Value::Text(s.clone()),
        },
        SqlValue::Text(s) => Value::Text(s.clone()),
    }
}

fn run(conn: &Connection, st: &Statement) -> usize {
    conn.execute(&st.sql, params_from_iter(st.params.iter().map(stored)))
        .unwrap()
}

fn count(conn: &Connection, sql: &str) -> i64 {
    conn.query_row(sql, [], |row| row.get(0)).unwrap()
}

fn backfill(conn: &Connection, schema: &DiscoveredSchema, base_has_loca: bool) {
    run(conn, &placeholder_file());
    match backfill_orphaned_loca(schema) {
        Backfill::Columns(columns) => {
            let n = run(conn, &backfill_statement(&columns, base_has_loca));
            if let Some(st) = placeholder_count(n as u64) {
                run(conn, &st);
            }
        }
        _ => panic!("columns refer to localized texts"),
    }
}

fn build_test_loca_bytes(key: &str, version: u16, text: &str) -> Vec<u8> {
    let mut bytes = Vec::new();
    let text_len = text.len() + 1;
    let header_size = 12u32;
    let entry_size = 70u32;
    bytes.extend_from_slice(&0x4143_4f4cu32.to_le_bytes());
    bytes.extend_from_slice(&1u32.to_le_bytes());
    bytes.extend_from_slice(&(header_size + entry_size).to_le_bytes());

    let mut key_bytes = [0u8; 64];
    key_bytes[..key.len()].copy_from_slice(key.as_bytes());
    bytes.extend_from_slice(&key_bytes);
    bytes.extend_from_slice(&version.to_le_bytes());
    bytes.extend_from_slice(&(text_len as u32).to_le_bytes());
    bytes.extend_from_slice(text.as_bytes());
    bytes.push(0);
    bytes
}

#[test]
fn backfill_orphaned_loca_skips_handles_present_in_base_fallback() {
    let schema = test_schema();
    let conn = create_test_conn();
    conn.execute(
        "INSERT INTO \"stats__PassiveData\" (_entry_name, DisplayName) VALUES ('Passive_Test', 'hbase')",
        [],
    )
    .unwrap();
    conn.execute_batch("ATTACH ':memory:' AS base;").unwrap();
    conn.execute_batch(&format!("CREATE TABLE base.loca__english {LOCA}")).unwrap();
    conn.execute(
        "INSERT INTO base.loca__english (contentuid, _file_id, version, text) VALUES ('hbase', 1, 0, 'Base Text')",
        [],
    )
    .unwrap();

    backfill(&conn, &schema, true);

    let placeholder_count = count(
        &conn,
        "SELECT COUNT(*) FROM main.loca__english WHERE contentuid = 'hbase'",
    );
    assert_eq!(placeholder_count, 0);
}

#[test]
fn placeholders_are_added_once_and_only_for_orphans() {
    let schema = test_schema();
    let conn = create_test_conn();
    conn.execute_batch(
        "INSERT INTO \"stats__PassiveData\" (_entry_name, DisplayName) VALUES
             ('A', 'hmain'), ('B', 'hbase'), ('C', 'hnone'), ('D', ''), ('E', NULL), ('F', 'hnone');
         INSERT INTO loca__english (contentuid, _file_id, version, text) VALUES ('hmain', 3, 2, 'Main');
         ATTACH ':memory:' AS base;",
    )
    .unwrap();
    conn.execute_batch(&format!("CREATE TABLE base.loca__english {LOCA}")).unwrap();
    conn.execute_batch("INSERT INTO base.loca__english (contentuid, _file_id, version, text) VALUES ('hbase', 1, 0, 'Base')").unwrap();
    let texts = |conn: &Connection| -> Vec<(String, i64, i64, String)> {
        let mut stmt = conn
            .prepare("SELECT contentuid, _file_id, version, text FROM main.loca__english ORDER BY 1")
            .unwrap();
        let rows = stmt
            .query_map([], |row| Ok((row.get(0)?, row.get(1)?, row.get(2)?, row.get(3)?)))
            .unwrap();
        rows.map(|r| r.unwrap()).collect()
    };
    backfill(&conn, &schema, true);
    let after = texts(&conn);
    assert_eq!(
        after,
        vec![
            ("hmain".to_string(), 3, 2, "Main".to_string()),
            (
                "hnone".to_string(),
                -1,
                0,
                "Invalid or Unknown Localization Handle Provided".to_string()
            ),
        ]
    );
    backfill(&conn, &schema, true);
    assert_eq!(texts(&conn), after);
}

#[test]
fn backfill_orphaned_loca_inserts_placeholder_when_missing_everywhere() {
    let schema = test_schema();
    let conn = create_test_conn();
    conn.execute(
        "INSERT INTO \"stats__PassiveData\" (_entry_name, DisplayName) VALUES ('Passive_Test', 'hmissing')",
        [],
    )
    .unwrap();

    backfill(&conn, &schema, false);

    let inserted: (String, String) = conn
        .query_row(
            "SELECT contentuid, text FROM loca__english WHERE contentuid = 'hmissing'",
            [],
            |row| Ok((row.get(0)?, row.get(1)?)),
        )
        .unwrap();
    assert_eq!(inserted.0, "hmissing");
    assert_eq!(
        inserted.1,
        "Invalid or Unknown Localization Handle Provided"
    );
    assert_eq!(
        count(&conn, "SELECT row_count FROM _source_files WHERE file_id = -1"),
        1
    );
}

#[test]
fn parse_stats_file_reads_in_memory_content() {
    let schema = test_schema();
    let file = FileEntry::from_bytes(
        "Shared/Public/Shared/Stats/Generated/Data/Passive.txt".to_string(),
        FileType::Stats,
        "Shared".to_string(),
        TargetDb::Base,
        10,
        b"new entry \"Passive_Test\"\n type \"PassiveData\"\n data \"DisplayName\" \"hpassive;1\"\n".to_vec(),
    );

    match parse_stats_file(&file, &schema) {
        ParsedContent::Stats { entries, .. } => {
            assert_eq!(entries.len(), 1);
            assert_eq!(entries[0].entry_name, "Passive_Test");
            assert_eq!(entries[0].table_name, "stats__PassiveData");
        }
        _ => panic!("expected parsed stats content"),
    }
}

#[test]
fn parse_loca_file_reads_in_memory_binary_content() {
    let file = FileEntry::from_bytes(
        "Localization/English/Test.loca".to_string(),
        FileType::Loca,
        "English".to_string(),
        TargetDb::Base,
        5,
        build_test_loca_bytes("hstream", 7, "Hello"),
    );

    match parse_loca_file(&file) {
        ParsedContent::Loca { entries } => {
            assert_eq!(entries.len(), 1);
            assert_eq!(entries[0].contentuid, "hstream");
            assert_eq!(entries[0].version, 7);
            assert_eq!(entries[0].text.as_deref(), Some("Hello"));
        }
        _ => panic!("expected parsed loca content"),
    }
}

#[test]
fn binary_loca_is_refused_where_it_is_cut_off() {
    let mut bytes = build_test_loca_bytes("h", 1, "text");
    assert_eq!(parse_loca(&bytes).unwrap().len(), 1);
    bytes[0] = 0;
    assert!(parse_loca(&bytes).is_none());
    assert!(parse_loca(&vec![1, 2, 3]).is_none());
}

#[test]
fn xml_loca_is_read_by_pattern() {
    let xml = "<contentList>\n<content contentuid=\"h1\" version=\"3\">A &amp; B</content>\n<content contentuid=\"h2\" version=\"1\" />\n</contentList>";
    let entries = parse_loca_xml_entries(xml);
    assert_eq!(entries.len(), 2);
    assert_eq!(entries[0].contentuid, "h1");
    assert_eq!(entries[0].version, 3);
    assert_eq!(entries[0].text.as_deref(), Some("A & B"));
    assert_eq!(entries[1].contentuid, "h2");
    assert_eq!(parse_loca_xml_entries("<contentList />").len(), 0);
    assert_eq!(parse_loca_xml_entries("  ").len(), 0);
    let matches = vec![vec![
        Some("whole".to_string()),
        Some("h9".to_string()),
        Some("12".to_string()),
        Some("x".to_string()),
    ]];
    assert_eq!(entries_of_matches(&matches)[0].version, 12);
    assert_eq!(decode_xml_entities("&lt;b&gt; &quot;&apos;&amp;"), "<b> \"'&");
}

#[test]
fn text_content_must_be_utf8() {
    let file = |bytes: &[u8]| {
        FileEntry::from_bytes(
            "a.txt".to_string(),
            FileType::Stats,
            "M".to_string(),
            TargetDb::Base,
            1,
            bytes.to_vec(),
        )
    };
    assert_eq!(read_text_content(&file("h\u{e9}".as_bytes())).unwrap(), "h\u{e9}");
    assert!(read_text_content(&file(&[0xff, 0xfe, 0x41]))
        .unwrap_err()
        .starts_with("UTF-8 decode error: "));
    let on_disk = FileEntry::from_disk(
        "/d/a.txt".to_string(),
        "a.txt".to_string(),
        FileType::Stats,
        "Shared".to_string(),
        TargetDb::Base,
        10,
    );
    let not_loaded = "Read error: the contents were not loaded";
    assert_eq!(read_text_content(&on_disk).unwrap_err(), not_loaded);
    assert_eq!(parse_loca_entries(&on_disk).unwrap_err(), not_loaded);
    let mut broken = file(b"LO");
    broken.rel_path = "a.loca".to_string();
    assert_eq!(parse_loca_entries(&broken).unwrap_err(), "Invalid LOCA file");
}

#[test]
fn column_names_tell_references() {
    let rule = match_fk_pattern("raceuuid", "guid").unwrap();
    assert_eq!(rule.target_table, Some("lsx__Races__Race"));
    assert_eq!(rule.target_column, Some("UUID"));
    let rule = match_fk_pattern("SomeOtherUUID", "guid").unwrap();
    assert!(rule.fk_type == FkType::UuidUnresolved);
    assert!(match_fk_pattern("Zzz", "int32").is_none());
    assert!(match_fk_pattern("AnyTemplate", "guid").is_some());
    assert!(match_fk_pattern("AnyTemplate", "FixedString").is_none());
    assert!(pattern_for(&vec![], "guid").is_none());
    let first = pattern_for(&vec![false, true], "guid").unwrap();
    assert_eq!(first.pattern, "(?i)^MapKey$");
}

#[test]
fn values_that_refer_to_nothing_are_dropped() {
    assert_eq!(coerce_fk_null(""), None);
    assert_eq!(coerce_fk_null("00000000-0000-0000-0000-000000000000"), None);
    assert_eq!(coerce_fk_null("EMPTY"), None);
    assert_eq!(coerce_fk_null("abc").as_deref(), Some("abc"));
}

#[test]
fn values_are_stored_by_type() {
    assert!(matches!(coerce_value("True", "bool"), SqlValue::Integer(1)));
    assert!(matches!(coerce_value("0", "bool"), SqlValue::Integer(0)));
    assert!(matches!(coerce_value("42", "int32"), SqlValue::Integer(42)));
    assert!(matches!(coerce_value("x", "int32"), SqlValue::Text(_)));
    assert!(matches!(stored(&coerce_value("1.5", "float")), Value::Real(_)));
    assert!(matches!(coerce_value("abc", "LSString"), SqlValue::Text(_)));
    for val in ["true", "TRUE", "1", "0", "", "-7", "9223372036854775808", "1.5", "x y"] {
        for kind in ["bool", "int8", "uint64", "float", "double", "guid", "LSString"] {
            let owned = coerce_value_owned(val.to_string(), kind);
            assert_eq!(format!("{owned:?}"), format!("{:?}", coerce_value(val, kind)));
            assert!(!matches!(owned, SqlValue::Null));
        }
    }
    let exact_limit = "179769313486231580793728971405303415079934132710037826936173778980444968292764750946649017977587207096330286416692887910946555547851940402630657488671505820681908902000708383676273854845817711531764475730270069855571366959622842914819860834936475292719074168444365510704342711559699508093042880177904174497792";
    let mut below = exact_limit.to_string();
    below.replace_range(308.., "1.99999999999999999999999999");
    let shifted = format!("0.{}1e400", "0".repeat(90));
    let scaled = format!("{exact_limit}00e-2");
    let less = format!("{below}e0");
    for val in [
        "0", "1", "-1", "+1", "1.5", ".5", "5.", ".", "", "+", "-", "e5", "1e", "1e+", "1e5", "1E-5", "1e+05",
        "1.e3", ".5e3", ".e3", "0x10", "1_0", " 1", "1 ", "inf", "-Infinity", "nan", "NaN", "1e308", "1e309",
        "1.7976931348623157e308", "1.7976931348623158e308", "1.7976931348623159e308", "-1.8e308", "0e999999999999",
        "1e-999999999999", "1e99999999999999999999999999999999999999", "0.0e5", "00.1", "1..2", "1.2.3", "1e5.0",
        "--1", "+-1", "\u{663}", exact_limit, &below, &shifted, &scaled, &less,
    ] {
        let finite = val.parse::<f64>().is_ok_and(|f| f.is_finite());
        assert_eq!(matches!(coerce_value(val, "float"), SqlValue::Real(_)), finite, "{val}");
        assert_eq!(matches!(coerce_value(val, "double"), SqlValue::Text(_)), !finite, "{val}");
    }
    assert!(matches!(coerce_value("1e999", "double"), SqlValue::Text(s) if s == "1e999"));
    assert!(matches!(coerce_value("9223372036854775808", "uint64"), SqlValue::Text(s) if s == "9223372036854775808"));
}

fn node_attr(id: &str, attr_type: &str, value: &str) -> LsxNodeAttribute {
    LsxNodeAttribute {
        id: id.to_string(),
        attr_type: attr_type.to_string(),
        value: value.to_string(),
        handle: None,
        version: None,
    }
}

fn color(object: &str) -> LsxNode {
    LsxNode {
        id: "EyeColors".to_string(),
        attributes: vec![node_attr("Object", "guid", object)],
        children: vec![],
    }
}

fn race(uuid: &str, name: &str, colors: &[&str]) -> LsxNode {
    LsxNode {
        id: "Race".to_string(),
        attributes: vec![
            node_attr("UUID", "guid", uuid),
            node_attr("Name", "FixedString", name),
        ],
        children: colors.iter().map(|c| color(c)).collect(),
    }
}

fn races() -> LsxResource {
    LsxResource {
        regions: vec![LsxRegion {
            id: "Races".to_string(),
            nodes: vec![LsxNode {
                id: "root".to_string(),
                attributes: vec![],
                children: vec![
                    race("r-1", "Human", &["c-1", "c-2"]),
                    race("r-2", "Elf", &["c-3"]),
                    race("r-1", "Again", &["c-4"]),
                ],
            }],
        }],
    }
}

fn create_tables(conn: &Connection, schema: &DiscoveredSchema) {
    conn.execute_batch("PRAGMA foreign_keys = OFF;").unwrap();
    for (_, t) in &schema.tables.entries {
        conn.execute_batch(&create_data_table(t, schema).0).unwrap();
    }
    for j in &schema.junction_tables {
        conn.execute_batch(&create_junction_table(j)).unwrap();
    }
}

#[test]
fn trees_go_into_tables_with_their_links() {
    let schema = discover_schema(&vec![discover_lsx(&Some(races()))]);
    let conn = Connection::open_in_memory().unwrap();
    conn.execute_batch(META).unwrap();
    create_tables(&conn, &schema);
    for sql in build_indexes(&schema) {
        conn.execute_batch(&sql).unwrap();
    }

    let mut sources = SourceIdCache::new();
    let source_id = match sources.resolve("Shared") {
        SourceId::New(id, st) => {
            run(&conn, &st);
            sources.remember("Shared");
            id
        }
        SourceId::Known(id) => id,
    };
    assert!(matches!(sources.resolve("Shared"), SourceId::Known(id) if id == source_id));

    let file = FileEntry::from_bytes(
        "Public/Shared/Races/Races.lsx".to_string(),
        FileType::Lsx,
        "Shared".to_string(),
        TargetDb::Base,
        10,
        vec![],
    );
    run(&conn, &insert_source_file(&file, 1, "Shared", 0));

    let plans = build_insert_plans(&schema);
    let roots = match parsed_content_from_resource(&races(), &schema) {
        ParsedContent::Lsx { root_nodes, last_region_id } => {
            assert_eq!(last_region_id.as_deref(), Some("Races"));
            root_nodes
        }
        _ => panic!("a region has nodes"),
    };
    let mut tree = TreeInsert::new(roots);
    let mut rows = 0u64;
    let mut next_key = 1u64;
    let mut links = 0;
    loop {
        for link in tree.advance(&schema) {
            links += conn
                .execute(
                    &link_statement(&link.junction),
                    [link.parent.as_str(), link.child.as_str()],
                )
                .unwrap();
        }
        let outcome = match &tree.current {
            Some(node) => {
                let plan = plans.get(&node.table_name).unwrap();
                let row = fill_node_row(plan, &node.attrs, 1, source_id, next_key);
                if row.made {
                    next_key += 1;
                }
                let affected = conn
                    .execute(&plan.sql, params_from_iter(row.values.iter().map(stored)))
                    .unwrap();
                row_outcome(
                    plan.pk_strategy,
                    row.key,
                    affected as u64,
                    conn.last_insert_rowid(),
                )
            }
            None => break,
        };
        if tree.report(outcome) {
            rows += 1;
        }
    }
    run(&conn, &update_source_file(&Some("Races".to_string()), rows, 1));

    let race_table = schema
        .tables
        .entries
        .iter()
        .find(|(_, t)| t.node_id.as_deref() == Some("Race"))
        .map(|(n, _)| n.clone())
        .unwrap();
    assert_eq!(count(&conn, &format!("SELECT COUNT(*) FROM \"{race_table}\"")), 2);
    let name: String = conn
        .query_row(
            &format!("SELECT \"Name\" FROM \"{race_table}\" WHERE \"UUID\" = 'r-1'"),
            [],
            |row| row.get(0),
        )
        .unwrap();
    assert_eq!(name, "Human", "the first row of a key stays");
    let junction = schema
        .junction_tables
        .iter()
        .find(|j| j.parent_table == race_table)
        .unwrap();
    assert_eq!(
        count(&conn, &format!("SELECT COUNT(*) FROM \"{}\"", junction.table_name)),
        3,
        "the children of a row that was there are left out"
    );
    assert!(links >= 3);
    assert!(count(&conn, "SELECT row_count FROM _source_files WHERE file_id = 1") >= 5);
    let stored_rows: i64 = schema
        .tables
        .entries
        .iter()
        .filter(|(_, t)| t.source_type == "lsx")
        .map(|(n, _)| count(&conn, &format!("SELECT COUNT(*) FROM \"{n}\"")))
        .sum();
    assert_eq!(rows as i64, stored_rows, "a row that was there is not counted");

    let t = schema.tables.get(&race_table).unwrap();
    let meta = table_meta(&race_table, t, 2);
    assert_eq!(meta.what, format!("Insert meta for '{race_table}'"));
    run(&conn, &meta);
    assert_eq!(
        count(&conn, "SELECT row_count FROM _table_meta WHERE region_id = 'Races' AND node_id = 'Race'"),
        2
    );
}

#[test]
fn texts_go_in_by_batches() {
    let conn = create_test_conn();
    conn.execute_batch("ALTER TABLE loca__english ADD COLUMN \"_SourceID\" INTEGER;").unwrap();
    let entries: Vec<ParsedLocaEntry> = (0..1234)
        .map(|i| ParsedLocaEntry {
            contentuid: format!("h{i}"),
            version: 1,
            text: Some(format!("Text {i}")),
        })
        .collect();
    let mut total = 0;
    for ins in insert_parsed_loca(&entries, 7, 1) {
        assert!(ins.statement.params.len() <= 32766);
        run(&conn, &ins.statement);
        total += ins.offered;
    }
    assert_eq!(total, 1234);
    assert_eq!(count(&conn, "SELECT COUNT(*) FROM loca__english"), 1234);
    let text: String = conn
        .query_row("SELECT text FROM loca__english WHERE contentuid = 'h1233'", [], |row| row.get(0))
        .unwrap();
    assert_eq!(text, "Text 1233");
}

#[test]
fn stats_entries_become_rows() {
    let schema = test_schema();
    let conn = create_test_conn();
    conn.execute_batch(
        "ALTER TABLE \"stats__PassiveData\" ADD COLUMN _file_id INTEGER;
         ALTER TABLE \"stats__PassiveData\" ADD COLUMN _type TEXT;
         ALTER TABLE \"stats__PassiveData\" ADD COLUMN _using TEXT;
         ALTER TABLE \"stats__PassiveData\" ADD COLUMN DisplayName_version INTEGER;",
    )
    .unwrap();
    let made = process_stats(
        "new entry \"P1\"\ntype \"PassiveData\"\ndata \"DisplayName\" \"hp1;2\"\n",
        1,
        &schema,
    );
    for st in &made.statements {
        run(&conn, st);
    }
    let name: String = conn
        .query_row(
            "SELECT DisplayName FROM \"stats__PassiveData\" WHERE _entry_name = 'P1'",
            [],
            |row| row.get(0),
        )
        .unwrap();
    assert_eq!(name, "hp1");
}

#[test]
fn value_lists_become_rows() {
    let schema = discover_schema(&vec![]);
    let conn = Connection::open_in_memory().unwrap();
    conn.execute_batch(META).unwrap();
    create_tables(&conn, &schema);
    conn.execute_batch("ALTER TABLE valuelist_entries ADD COLUMN \"_SourceID\" INTEGER;")
        .unwrap();
    let file = FileEntry::from_bytes(
        "Public/Shared/Stats/Generated/Structure/Base/ValueLists.txt".to_string(),
        FileType::Stats,
        "Shared".to_string(),
        TargetDb::Base,
        10,
        b"valuelist \"Damage Type\"\nvalue \"None\" : 0\nvalue \"Fire\" : 1\n".to_vec(),
    );
    let content = parse_stats_file(&file, &schema);
    let plans = build_insert_plans(&schema);
    let mut rows = 0;
    for ins in insert_parsed_content(&content, 1, 1, &plans, &schema) {
        assert_eq!(ins.table, "valuelist_entries");
        rows += run(&conn, &ins.statement);
    }
    assert_eq!(rows, 2);
    assert_eq!(
        count(&conn, "SELECT value_index FROM valuelist_entries WHERE value_name = 'Fire'"),
        1
    );
}

#[test]
fn keys_that_are_made_up_are_distinct() {
    assert_ne!(make_key(1), make_key(2));
    assert_eq!(make_key(1), make_key(1));
}

#[test]
fn files_are_shared_out_with_distinct_numbers() {
    let file = |i: usize, effect: bool| {
        FileEntry::from_bytes(
            if effect {
                format!("Public/S/Assets/Effects/Effects_Banks/e{i}.lsfx")
            } else {
                format!("Public/S/Races/r{i}.lsx")
            },
            FileType::Lsx,
            "S".to_string(),
            TargetDb::Base,
            1,
            vec![],
        )
    };
    let mut files: Vec<FileEntry> = (0..10).map(|i| file(i, false)).collect();
    files.extend((0..2500).map(|i| file(i, true)));
    assert!(num_effect_partitions(2500) >= 1);
    let mut ids = Vec::new();
    let mut total = 0;
    match plan_insert(files, 100) {
        InsertLayout::Single { files } => {
            total += files.len();
            ids.extend((0..files.len()).map(|i| file_id_at(100, i)));
        }
        InsertLayout::Parallel { groups, bases, main, main_base } => {
            for (group, base) in groups.iter().zip(bases.iter()) {
                total += group.len();
                ids.extend((0..group.len()).map(|i| file_id_at(*base, i)));
            }
            total += main.len();
            ids.extend((0..main.len()).map(|i| file_id_at(main_base, i)));
        }
    }
    assert_eq!(total, 2510);
    ids.sort();
    ids.dedup();
    assert_eq!(ids.len(), 2510);
    assert!(ids[0] > 100);
}

#[test]
fn counts_add_up_and_partitions_merge() {
    let schema = test_schema();
    let mut counts = zero_counts(&schema);
    let mut more = TextMap::new();
    more.insert("loca__english".to_string(), 3u64);
    add_counts(&mut counts, &more);
    add_counts(&mut counts, &more);
    assert_eq!(*counts.get("loca__english").unwrap(), 6);
    assert_eq!(*counts.get("stats__PassiveData").unwrap(), 0);
    let merged = merge_partition(&schema, &counts);
    assert!(merged.iter().any(|s| s.contains("loca__english")));
    assert!(!merged.iter().any(|s| s.contains("stats__PassiveData")));
}

#[test]
fn base_database_is_found_by_name() {
    let names = base_fallback_names("ref_honor.sqlite");
    assert_eq!(names[0], "ref_base.sqlite");
    assert!(!base_fallback_names("ref_base.sqlite").contains(&"ref_base.sqlite".to_string()));
}

#[test]
fn outcomes_of_files_and_databases_add_up() {
    let counts = run_pipeline_insert(&vec![Ok((3, 1)), Err("broken".to_string()), Ok((4, 0))]);
    assert_eq!((counts.total_rows, counts.row_errors, counts.file_errors), (7, 1, 1));
    let full = run_pipeline_insert(&vec![Ok((u64::MAX, 0)), Ok((2, 0))]);
    assert_eq!(full.total_rows, u64::MAX);

    let rows = |list: &[(&str, u64)]| {
        let mut m = TextMap::new();
        for (k, n) in list {
            m.insert(k.to_string(), *n);
        }
        m
    };
    let main = PartitionResult { counts, row_counts: rows(&[("a", 5), ("b", 2)]) };
    let effects = vec![
        PartitionResult {
            counts: run_pipeline_insert(&vec![Ok((10, 2))]),
            row_counts: rows(&[("b", 6), ("c", 4)]),
        },
        PartitionResult {
            counts: run_pipeline_insert(&vec![Err("broken".to_string())]),
            row_counts: rows(&[("c", 1)]),
        },
    ];
    let all = run_parallel_insert(main, &effects);
    assert_eq!((all.counts.total_rows, all.counts.row_errors, all.counts.file_errors), (17, 3, 2));
    assert_eq!(all.row_counts.get("a"), Some(&5));
    assert_eq!(all.row_counts.get("b"), Some(&8));
    assert_eq!(all.row_counts.get("c"), Some(&5));
}

#[test]
fn tables_are_described_by_their_rows() {
    let conn = create_test_conn();
    let mut schema = test_schema();
    schema.junction_tables.push(JunctionDef {
        table_name: "jct".to_string(),
        parent_table: "loca__english".to_string(),
        child_table: "stats__PassiveData".to_string(),
        parent_pk_column: "contentuid".to_string(),
        parent_pk_type: "TEXT".to_string(),
        child_pk_column: "_entry_name".to_string(),
        child_pk_type: "TEXT".to_string(),
    });
    let mut counted = TextMap::new();
    counted.insert("loca__english".to_string(), 4u64);
    counted.insert("jct".to_string(), 9u64);
    for st in populate_table_meta(&schema, &TextMap::new(), &counted) {
        run(&conn, &st);
    }
    let rows = |conn: &Connection, table: &str| {
        count(conn, &format!("SELECT row_count FROM _table_meta WHERE table_name = '{table}'"))
    };
    assert_eq!(rows(&conn, "loca__english"), 4);
    assert_eq!(rows(&conn, "stats__PassiveData"), 0);
    assert_eq!(rows(&conn, "jct"), 9);
    let parents: String = conn
        .query_row("SELECT parent_tables FROM _table_meta WHERE table_name = 'jct'", [], |row| row.get(0))
        .unwrap();
    assert_eq!(parents, "loca__english,stats__PassiveData");

    let mut noted = TextMap::new();
    noted.insert("stats__PassiveData".to_string(), 7u64);
    for st in populate_table_meta(&schema, &noted, &counted) {
        run(&conn, &st);
    }
    assert_eq!(rows(&conn, "loca__english"), 0);
    assert_eq!(rows(&conn, "stats__PassiveData"), 7);
    assert_eq!(rows(&conn, "jct"), 9);
}

#[test]
fn resource_files_are_read_by_extension() {
    let file = |path: &str, bytes: &[u8]| {
        FileEntry::from_bytes(
            path.to_string(),
            FileType::Lsx,
            "Shared".to_string(),
            TargetDb::Base,
            0,
            bytes.to_vec(),
        )
    };
    let source = |path: &str, bytes: &[u8]| parse_lsx_resource_file(&file(path, bytes));
    assert!(matches!(source("Public/Shared/a.LSF", b"LSOF"), Ok(ResourceSource::Lsf)));
    assert!(matches!(source("Public/Shared/a.lsfx", b"LSOF"), Ok(ResourceSource::Lsfx)));
    assert!(matches!(source("Public/Shared/a.lsx", b" \n\t"), Ok(ResourceSource::Nothing)));
    assert!(matches!(source("Public/Shared/a.lsx", b"<save/>"), Ok(ResourceSource::Text(t)) if t == "<save/>"));
    assert!(source("Public/Shared/a.lsx", &[0xff, 0xfe]).unwrap_err().starts_with("UTF-8 decode error: "));
    let unread = FileEntry { bytes: None, ..file("Public/Shared/a.lsf", b"") };
    assert!(parse_lsx_resource_file(&unread).is_err());

    assert_eq!(effect_source(&file("a.lsefx", b"<effect/>")).unwrap().as_deref(), Some("<effect/>"));
    assert_eq!(effect_source(&file("a.lsefx", b"  ")).unwrap(), None);
    assert!(effect_source(&file("a.lsefx", &[0xff])).is_err());
}

#[test]
fn regions_without_nodes_still_name_their_file() {
    let schema = test_schema();
    let region = |id: &str, nodes: Vec<LsxNode>| LsxRegion { id: id.to_string(), nodes };
    let resource = LsxResource {
        regions: vec![region("Races", vec![race("r-1", "Human", &[])]), region("Extra", Vec::new())],
    };
    let (last, roots) = process_lsx(&resource, &schema);
    assert_eq!(last.as_deref(), Some("Extra"));
    assert_eq!(roots.len(), 1);
    let empty = LsxResource { regions: vec![region("Extra", Vec::new())] };
    let (last, roots) = process_lsx(&empty, &schema);
    assert_eq!(last.as_deref(), Some("Extra"));
    assert!(roots.is_empty());
    assert!(matches!(parsed_content_from_resource(&empty, &schema), ParsedContent::Empty));
}

#[test]
fn rows_on_their_own_never_hide_their_children() {
    let key = || Some("k".to_string());
    assert!(matches!(
        direct_outcome(PkStrategy::Uuid, key(), 0, 0),
        RowOutcome::Keyed { pk, inserted: true } if pk == "k"
    ));
    assert!(matches!(
        row_outcome(PkStrategy::Uuid, key(), 0, 0),
        RowOutcome::Keyed { pk, inserted: false } if pk == "k"
    ));
    assert!(matches!(
        direct_outcome(PkStrategy::Rowid, None, 1, 42),
        RowOutcome::Keyed { pk, inserted: true } if pk == "42"
    ));
    assert!(matches!(direct_outcome(PkStrategy::Rowid, None, 0, 42), RowOutcome::Unkeyed));
}
