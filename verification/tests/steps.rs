use bg3_refdb::backfill::attach_base_needed;
use bg3_refdb::batches::{
    content_region, count_rows, insert_parsed_file, insert_parsed_loca, SourceId, SourceIdCache,
};
use bg3_refdb::collect::{collect_editor_files, collect_scan_roots, FoundFile};
use bg3_refdb::cross_db::{dangling_sql, fk_list_sql, table_exists_sql};
use bg3_refdb::ddl::{
    create_mods_data_table, create_mods_junction_table, populate_column_types, META_TABLES,
};
use bg3_refdb::files::{should_use_in_memory, BuildOptions, FileEntry, FileType, TargetDb};
use bg3_refdb::insert::{insert_lsx_row, process_loca};
use bg3_refdb::loca::ParsedLocaEntry;
use bg3_refdb::lookups::{atlas_query, icon_places_query, icon_query};
use bg3_refdb::parsed::ParsedContent;
use bg3_refdb::partition::{
    attach_partition, collect_source_names, is_effect_file, pre_populate_sources, vacuum_into,
};
use bg3_refdb::pipeline::{
    check_schema_dbs, choose_pak, collect_files_from_paks, count_files, count_paks_to_extract,
    honor_options, list_pak_files, pak_file_names, pak_jobs, populate_vanilla_dbs,
    resolve_data_dir, LocaOutcome, PakKind, PakOutcome,
};
use bg3_refdb::rows::build_junction_plans;
use bg3_refdb::schema::{
    ColumnDef, DiscoveredSchema, FkConstraint, JunctionDef, PkStrategy, TableSchema,
};
use bg3_refdb::sql::Statement;
use bg3_refdb::textmap::TextMap;
use bg3_refdb::types::SqlValue;
use rusqlite::types::Value;
use rusqlite::{params_from_iter, Connection};

fn texts(list: &[&str]) -> Vec<String> {
    list.iter().map(|s| s.to_string()).collect()
}

fn file(path: &str, mod_name: &str, target: TargetDb, file_type: FileType) -> FileEntry {
    FileEntry::from_bytes(path.to_string(), file_type, mod_name.to_string(), target, 5, Vec::new())
}

fn run(conn: &Connection, st: &Statement) -> usize {
    let params = st.params.iter().map(|v| match v {
        SqlValue::Null => Value::Null,
        SqlValue::Integer(n) => Value::Integer(*n),
        SqlValue::Real(s) | SqlValue::Text(s) => Value::Text(s.clone()),
    });
    conn.execute(&st.sql, params_from_iter(params)).unwrap()
}

fn table(name: &str, pk_strategy: PkStrategy, columns: &[(&str, &str, &str)]) -> TableSchema {
    TableSchema {
        table_name: name.to_string(),
        pk_strategy,
        source_type: "lsx".to_string(),
        region_id: Some("Races".to_string()),
        node_id: Some("Race".to_string()),
        columns: columns
            .iter()
            .map(|(n, b, s)| ColumnDef {
                name: n.to_string(),
                bg3_type: b.to_string(),
                sqlite_type: s.to_string(),
            })
            .collect(),
        fk_constraints: Vec::new(),
        has_file_id: true,
        parent_tables: Vec::new(),
    }
}

fn schema(list: Vec<TableSchema>) -> DiscoveredSchema {
    let mut tables = TextMap::new();
    for t in list {
        tables.insert(t.table_name.clone(), t);
    }
    DiscoveredSchema {
        tables,
        renames: TextMap::new(),
        region_node_ids: TextMap::new(),
        junction_tables: Vec::new(),
        junction_lookup: TextMap::new(),
    }
}

fn junction() -> JunctionDef {
    JunctionDef {
        table_name: "jct".to_string(),
        parent_table: "lsx__Races__Race".to_string(),
        parent_pk_column: "UUID".to_string(),
        parent_pk_type: "TEXT".to_string(),
        child_table: "lsx__Races__Color".to_string(),
        child_pk_column: "_row_id".to_string(),
        child_pk_type: "INTEGER".to_string(),
    }
}

#[test]
fn packages_are_chosen_by_name() {
    let names = texts(&["b.txt", "Patch3_HotFix1.pak", "DiceSet02.pak", ".pak", "Gustav.pak"]);
    let paks = list_pak_files(&names);
    assert_eq!(paks, texts(&["DiceSet02.pak", "Gustav.pak", "Patch3_HotFix1.pak"]));
    let jobs = pak_jobs(&paks);
    assert_eq!(jobs.len(), 9);
    assert_eq!((jobs[7].name.as_str(), jobs[8].name.as_str()), ("DiceSet02", "Patch3_HotFix1"));
    assert_eq!(jobs[7].kind, PakKind::DiceSet);
    assert_eq!(jobs[8].kind, PakKind::Hotfix);
    let mut present = vec![false; 9];
    present[0] = true;
    assert_eq!(count_paks_to_extract(&jobs, &present), 3);

    let (path, alt) = pak_file_names("Gustav");
    assert_eq!((path.as_str(), alt.as_str()), ("Gustav.pak", "Gustav_0.pak"));
    assert_eq!(choose_pak("Gustav", &path, true, &alt, true).unwrap(), "Gustav.pak");
    assert_eq!(choose_pak("Gustav", &path, false, &alt, true).unwrap(), "Gustav_0.pak");
    assert_eq!(
        choose_pak("Gustav", &path, false, &alt, false).unwrap_err(),
        "Gustav.pak not found (tried Gustav.pak and Gustav_0.pak)"
    );
}

#[test]
fn the_data_directory_is_found() {
    let found = |exists, sub, here, below| resolve_data_dir("/g", exists, "/g/Data", sub, here, below);
    assert_eq!(
        found(false, false, false, false).unwrap_err(),
        "Game data directory does not exist: /g"
    );
    let (dir, notes) = found(true, true, false, true).unwrap();
    assert_eq!(dir, "/g/Data");
    assert_eq!(
        notes,
        texts(&["Auto-resolved: using /g/Data (no .pak in root)", "Game data dir: /g/Data"])
    );
    let (dir, notes) = found(true, true, true, true).unwrap();
    assert_eq!((dir.as_str(), notes), ("/g", texts(&["Game data dir: /g"])));
    assert_eq!(found(true, false, false, true).unwrap().0, "/g");
}

#[test]
fn databases_must_be_there() {
    let honor = Some("h".to_string());
    assert!(check_schema_dbs("b", true, &honor, true, "Hint.").is_ok());
    assert!(check_schema_dbs("b", true, &None, false, "Hint.").is_ok());
    assert_eq!(
        check_schema_dbs("b", false, &honor, false, "Hint.").unwrap_err(),
        "Base schema DB not found: b. Hint."
    );
    assert_eq!(
        check_schema_dbs("b", true, &honor, false, "Hint.").unwrap_err(),
        "Honor schema DB not found: h. Hint."
    );
    let options =
        BuildOptions { vacuum: false, force_disk: Some(true), fallback_base_db_path: None };
    let honored = honor_options(&options, "b");
    assert_eq!(honored.fallback_base_db_path.as_deref(), Some("b"));
    assert!(!honored.vacuum);
    assert_eq!(honored.force_disk, Some(true));
    assert_eq!(count_files(12), "12 files");
}

#[test]
fn packages_of_the_game_must_be_readable() {
    let jobs = pak_jobs(&texts(&["DiceSet01.pak"]));
    let loaded = |n: usize| PakOutcome::Loaded {
        files: (0..n)
            .map(|i| file(&format!("f{i}"), "Gustav", TargetDb::Base, FileType::Lsx))
            .collect(),
        note: format!("read {n}"),
    };
    let outcomes = |bad: usize| -> Vec<PakOutcome> {
        (0..jobs.len())
            .map(|i| if i == bad { PakOutcome::Failed("broken".to_string()) } else { loaded(1) })
            .collect()
    };
    let (files, notes) = collect_files_from_paks(&jobs, outcomes(7), LocaOutcome::NoPak).unwrap();
    assert_eq!(files.len(), 7);
    assert!(notes.contains(&"SKIP DiceSet01.pak: broken".to_string()));
    assert_eq!(notes.last().unwrap(), "Total: 7 files from paks");
    let err = collect_files_from_paks(&jobs, outcomes(2), LocaOutcome::NoPak).unwrap_err();
    assert_eq!(err, "Shared.pak: broken");
    let loca = LocaOutcome::Failed { path: "l".to_string(), error: "cut off".to_string() };
    let err = collect_files_from_paks(&jobs, outcomes(99), loca).unwrap_err();
    assert_eq!(err, "Loca extraction: cut off");
    let loca = LocaOutcome::Loaded {
        path: "l".to_string(),
        files: vec![file("x.loca", "English", TargetDb::Base, FileType::Loca)],
        note: "read".to_string(),
    };
    let (files, notes) = collect_files_from_paks(&jobs, outcomes(99), loca).unwrap();
    assert_eq!(files.len(), 9);
    assert_eq!(
        notes[notes.len() - 3..],
        texts(&["Found English loca pak: l", "read", "Total: 9 files from paks"])
    );
}

#[test]
fn databases_are_filled_from_packages_and_editor() {
    let paks = vec![
        file("a", "Gustav", TargetDb::Base, FileType::Lsx),
        file("b", "Honour", TargetDb::Honor, FileType::Lsx),
        file("c", "English", TargetDb::Base, FileType::Loca),
    ];
    let editor = vec![file("d", "Gustav", TargetDb::Base, FileType::Effect)];
    let filled = populate_vanilla_dbs(paks, editor, true);
    assert_eq!(filled.base_files.len(), 3);
    assert_eq!(filled.honor_files.len(), 1);
    assert!(filled.fill_honor);
    assert_eq!(filled.paks_extracted, 3, "the number of modules");
    assert_eq!(filled.files_extracted, 3);
    assert_eq!(filled.loca_converted, 1);
    assert!(!populate_vanilla_dbs(Vec::new(), Vec::new(), true).fill_honor);
}

#[test]
fn directories_are_scanned_once() {
    let roots = collect_scan_roots(&texts(&["Shared", "Gustav"]));
    let parts: Vec<String> = roots.iter().map(|r| r.parts.join("/")).collect();
    assert_eq!(parts.len(), 10);
    for want in ["Shared/Public", "Shared/Mods", "Gustav/Mods", "English", "Game/Public"] {
        assert_eq!(parts.iter().filter(|p| *p == want).count(), 1, "{want}");
    }
    let mut sorted = parts.clone();
    sorted.sort();
    assert_eq!(parts, sorted);
}

#[test]
fn editor_files_are_definitions_and_effects() {
    let found = |rel: &str| FoundFile {
        path: format!("/data/{rel}"),
        rel_path: rel.to_string(),
        sibling_exists: false,
    };
    let files = collect_editor_files(
        &vec![found("Editor/Config/AllSpark/A.xcd"), found("Editor/Config/AllSpark/b.png")],
        &vec![found("Editor/Mods/Shared/Assets/Effects/E.lsefx"), found("Editor/Mods/x.png")],
    );
    let kinds: Vec<FileType> = files.iter().map(|f| f.file_type).collect();
    assert_eq!(kinds, vec![FileType::AllSpark, FileType::Effect]);
    let none = collect_editor_files(
        &vec![found("Editor/Config/AllSpark/notes.txt"), found("Editor/Config/AllSpark/A.lsefx")],
        &vec![found("Editor/Mods/Shared/Assets/Effects/E.txt"), found("Editor/Mods/Shared/A.xcd")],
    );
    assert_eq!(none.len(), 0);
}

#[test]
fn rows_are_those_that_went_in() {
    let entries: Vec<ParsedLocaEntry> = ["a", "b", "a"]
        .iter()
        .map(|id| ParsedLocaEntry { contentuid: id.to_string(), version: 1, text: None })
        .collect();
    let insertions = insert_parsed_loca(&entries, 1, 1);
    assert_eq!(insertions[0].offered, 3);
    let conn = Connection::open_in_memory().unwrap();
    conn.execute_batch(
        "CREATE TABLE loca__english (contentuid TEXT PRIMARY KEY, _file_id INTEGER, \"_SourceID\" INTEGER, version INTEGER, text TEXT)",
    )
    .unwrap();
    let taken: Vec<u64> =
        insertions.iter().map(|ins| run(&conn, &ins.statement) as u64).collect();
    let mut counts = TextMap::new();
    counts.insert("loca__english".to_string(), 5u64);
    assert_eq!(insert_parsed_file(&mut counts, &insertions, &taken), 2);
    assert_eq!(counts.get("loca__english"), Some(&7));
    assert_eq!(insert_parsed_file(&mut counts, &insertions, &vec![u64::MAX]), u64::MAX);
    assert_eq!(counts.get("loca__english"), Some(&u64::MAX));
}

#[test]
fn effect_files_are_those_of_the_runtime() {
    let file = |rel: &str| {
        FileEntry::from_disk(format!("/d/{rel}"), rel.to_string(), FileType::Lsx, "Shared".to_string(), TargetDb::Base, 10)
    };
    assert!(is_effect_file(&file("a/E.lsfx")));
    assert!(is_effect_file(&file("a/E.lsfx.lsx")));
    assert!(!is_effect_file(&file("a/E.lsefx")));
    assert!(!is_effect_file(&file("a/E.lsx")));
}

#[test]
fn memory_decides_where_databases_are_filled() {
    let options = |force_disk| BuildOptions { vacuum: true, force_disk, fallback_base_db_path: None };
    assert!(should_use_in_memory(&options(Some(false)), Some(0)));
    assert!(!should_use_in_memory(&options(Some(true)), None));
    assert!(should_use_in_memory(&options(None), None));
    assert!(should_use_in_memory(&options(None), Some(4 * 1024 * 1024 * 1024)));
    assert!(!should_use_in_memory(&options(None), Some(4 * 1024 * 1024 * 1024 - 1)));
}

#[test]
fn tables_of_mods_can_be_created() {
    let conn = Connection::open_in_memory().unwrap();
    let mut t = table(
        "lsx__Races__Race",
        PkStrategy::Uuid,
        &[("Name", "FixedString", "TEXT"), ("Weight", "int32", "INTEGER")],
    );
    t.fk_constraints.push(FkConstraint {
        source_column: "Name".to_string(),
        target_table: "elsewhere".to_string(),
        target_column: "UUID".to_string(),
    });
    conn.execute_batch(&create_mods_data_table(&t)).unwrap();
    conn.execute_batch(&create_mods_junction_table(&junction())).unwrap();
    let columns: Vec<String> = conn
        .prepare("SELECT name FROM pragma_table_info('lsx__Races__Race')")
        .unwrap()
        .query_map([], |row| row.get(0))
        .unwrap()
        .map(|r| r.unwrap())
        .collect();
    for want in ["UUID", "Name", "Weight", "_file_id"] {
        assert!(columns.iter().any(|c| c == want), "{want} in {columns:?}");
    }
    let links: i64 = conn
        .query_row("SELECT COUNT(*) FROM pragma_foreign_key_list('lsx__Races__Race')", [], |row| row.get(0))
        .unwrap();
    assert_eq!(links, 0, "tables of mods hold no references");
    conn.execute_batch("INSERT INTO jct VALUES ('p', 1, 2), ('p', 1, 3)").unwrap();
}

#[test]
fn column_types_are_written_down() {
    let conn = Connection::open_in_memory().unwrap();
    conn.execute_batch(META_TABLES).unwrap();
    let s = schema(vec![table("t", PkStrategy::Uuid, &[("Name", "FixedString", "TEXT")])]);
    for st in populate_column_types(&s) {
        run(&conn, &st);
    }
    let (bg3, sqlite): (String, String) = conn
        .query_row(
            "SELECT bg3_type, sqlite_type FROM _column_types WHERE table_name = 't' AND column_name = 'Name'",
            [],
            |row| Ok((row.get(0)?, row.get(1)?)),
        )
        .unwrap();
    assert_eq!((bg3.as_str(), sqlite.as_str()), ("FixedString", "TEXT"));
}

#[test]
fn sources_get_numbers() {
    let files = vec![
        file("a", "Shared", TargetDb::Base, FileType::Lsx),
        file("b", "Gustav", TargetDb::Base, FileType::Lsx),
        file("c", "Shared", TargetDb::Base, FileType::Lsx),
    ];
    let names = collect_source_names(&files);
    assert_eq!(names.len(), 2);
    let conn = Connection::open_in_memory().unwrap();
    conn.execute_batch(META_TABLES).unwrap();
    for st in pre_populate_sources(&names) {
        run(&conn, &st);
    }
    let rows: Vec<(i64, String)> = conn
        .prepare("SELECT id, name FROM _sources ORDER BY id")
        .unwrap()
        .query_map([], |row| Ok((row.get(0)?, row.get(1)?)))
        .unwrap()
        .map(|r| r.unwrap())
        .collect();
    assert_eq!(rows.len(), 2);
    let mut cache = SourceIdCache::new_from_existing(&rows);
    for (id, name) in &rows {
        assert!(matches!(cache.resolve(name), SourceId::Known(n) if n == *id));
    }
    let next = rows[1].0 + 1;
    assert!(matches!(cache.resolve("Honour"), SourceId::New(n, _) if n == next));
    cache.remember("Honour");
    assert!(matches!(cache.resolve("Honour"), SourceId::Known(n) if n == next));
}

#[test]
fn rows_are_counted_by_table() {
    let mut counts = TextMap::new();
    counts.insert("t".to_string(), 2u64);
    count_rows(&mut counts, "t", 3);
    count_rows(&mut counts, "other", 9);
    assert_eq!(counts.get("t"), Some(&5));
    let content = ParsedContent::Lsx {
        last_region_id: Some("Races".to_string()),
        root_nodes: Vec::new(),
    };
    assert_eq!(content_region(&content).as_deref(), Some("Races"));
    assert_eq!(content_region(&ParsedContent::Empty), None);
}

#[test]
fn databases_are_attached_and_written_by_path() {
    assert_eq!(attach_partition("/tmp/it's.db"), "ATTACH DATABASE '/tmp/it''s.db' AS effect_db");
    assert_eq!(vacuum_into("/tmp/x.db"), "VACUUM INTO '/tmp/x.db'");
    let main = vec![("main".to_string(), "m".to_string())];
    let both = vec![("main".to_string(), "m".to_string()), ("base".to_string(), "b".to_string())];
    assert!(attach_base_needed(true, &main));
    assert!(!attach_base_needed(true, &both));
    assert!(!attach_base_needed(false, &main));
    assert_eq!(fk_list_sql("t"), "PRAGMA main.foreign_key_list(\"t\")");
    assert_eq!(
        table_exists_sql("base"),
        "SELECT COUNT(*) FROM \"base\".sqlite_master WHERE type='table' AND name=?1"
    );
    assert_eq!(
        dangling_sql("t", "c", "u", "d"),
        "SELECT rowid, \"c\" FROM main.\"t\" WHERE \"c\" IS NOT NULL AND \"c\" NOT IN (SELECT \"d\" FROM main.\"u\")"
    );
}

#[test]
fn rows_of_nodes_are_written_out() {
    let s = schema(vec![
        table(
            "t",
            PkStrategy::Uuid,
            &[("Name", "FixedString", "TEXT"), ("Weight", "int32", "INTEGER")],
        ),
        table("r", PkStrategy::Rowid, &[("Name", "FixedString", "TEXT")]),
    ]);
    let attr = |n: &str, t: &str, v: &str| (n.to_string(), t.to_string(), v.to_string());
    let attrs = vec![
        attr("uuid", "guid", "u-1"),
        attr("name", "FixedString", "Human"),
        attr("Weight", "int32", "70"),
        attr("Unknown", "int32", "1"),
    ];
    let made = insert_lsx_row("t", 4, &attrs, &s, 9).unwrap();
    assert_eq!(
        made.statement.sql,
        "INSERT OR IGNORE INTO \"t\" (\"_file_id\", \"UUID\", \"Name\", \"Weight\") VALUES (?1, ?2, ?3, ?4)"
    );
    assert!(matches!(&made.statement.params[0], SqlValue::Integer(4)));
    assert!(matches!(&made.statement.params[3], SqlValue::Integer(70)));
    assert_eq!(made.key.as_deref(), Some("u-1"));
    assert!(!made.made);

    let made = insert_lsx_row("t", 4, &attrs[1..].to_vec(), &s, 9).unwrap();
    assert_eq!(made.key.as_deref(), Some("_row_id_9"));
    assert!(made.made);
    let made = insert_lsx_row("r", 4, &attrs, &s, 9).unwrap();
    assert_eq!(made.key, None);
    assert_eq!(insert_lsx_row("none", 4, &attrs, &s, 9).unwrap_err(), "Unknown table: none");
}

#[test]
fn texts_go_in_where_there_is_a_table_for_them() {
    let entries = vec![ParsedLocaEntry {
        contentuid: "h1".to_string(),
        version: 2,
        text: Some("Text".to_string()),
    }];
    let s = schema(vec![table("loca__english", PkStrategy::ContentUid, &[])]);
    let made = process_loca(&entries, 7, &s);
    assert_eq!(made.len(), 1);
    assert!(made[0].params.iter().any(|p| matches!(p, SqlValue::Text(t) if t == "Text")));
    assert!(process_loca(&entries, 7, &schema(Vec::new())).is_empty());
    let mut linked = schema(Vec::new());
    linked.junction_tables.push(junction());
    assert_eq!(
        build_junction_plans(&linked).get("jct").map(|s| s.as_str()),
        Some("INSERT OR IGNORE INTO \"jct\" (parent_id, child_id) VALUES (?1, ?2)")
    );
}

#[test]
fn icons_are_asked_for_where_the_columns_are() {
    let all = texts(&["MapKey", "U1", "V1", "U2", "V2", "_file_id", "Path"]);
    assert_eq!(
        icon_query("t", &all).unwrap(),
        "SELECT \"MapKey\" FROM \"t\" WHERE \"MapKey\" IS NOT NULL AND \"MapKey\" != '' ORDER BY \"MapKey\""
    );
    assert!(icon_query("t", &texts(&["UUID"])).is_none());
    assert_eq!(
        atlas_query("t", &all).unwrap(),
        "SELECT _file_id, \"Path\" FROM \"t\" WHERE \"Path\" IS NOT NULL AND \"Path\" != '' AND _file_id IS NOT NULL"
    );
    assert!(atlas_query("t; x", &all).is_none());
    assert!(atlas_query("t", &texts(&["Path"])).is_none());
    assert_eq!(
        icon_places_query("t", &all).unwrap(),
        "SELECT \"MapKey\", \"U1\", \"V1\", \"U2\", \"V2\", _file_id FROM \"t\" WHERE \"MapKey\" IS NOT NULL AND \"MapKey\" != ''"
    );
    assert!(icon_places_query("t", &texts(&["MapKey", "U1", "V1", "U2", "_file_id"])).is_none());
}
