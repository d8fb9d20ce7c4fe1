use bg3_refdb::allspark::{
    process_allspark, spark_source, SparkComponent, SparkGroup, SparkModule, SparkProperty,
    SparkRegistry, SparkSource,
};
use bg3_refdb::discovery::discover_lsx;
use bg3_refdb::effects::{
    process_effect, Datum, Effect, EffectComponent, EffectProperty, Track, TrackGroup,
};
use bg3_refdb::files::{
    adaptive_pipeline_params, extension_of, file_name_of, sanitize_id, stem_of, FileEntry,
    FileType, TargetDb,
};
use bg3_refdb::models::{LsxNode, LsxNodeAttribute, LsxRegion, LsxResource};
use bg3_refdb::order::text_before;
use bg3_refdb::parsed::{
    build_parsed_node, parse_equipment_content, parse_file, parse_modifier_content, parse_stats_file,
    ParsedContent,
};
use bg3_refdb::partition::{parse_threads, quote_path, shared_threads};
use bg3_refdb::schema::{consolidate, DiscoveredSchema};
use bg3_refdb::schema_build::discover_schema;
use bg3_refdb::sql::Statement;
use bg3_refdb::stats_discovery::discover_stats;
use bg3_refdb::stats_parse::{
    parse_nonstandard_stats_content, parse_stats_entries_content, split_data_line,
};
use bg3_refdb::stats_text::parse_csv_values;
use bg3_refdb::text::{
    decimal_text, eq_ignore_case, int_text, join, lines, parse_i64, replace_all, replace_once,
    split, split_once, strip_prefix_ci, to_ascii_lower, trim, white,
};
use bg3_refdb::textmap::TextMap;
use bg3_refdb::types::SqlValue;
use rusqlite::types::Value;
use rusqlite::{params_from_iter, Connection};

const TEXTS: [&str; 14] = [
    "",
    " ",
    "a",
    "a;b;;c",
    ";",
    "line one\nline two\r\nline three\n",
    "\n\n",
    "\r\n",
    "tab\tand\u{a0}space \u{2003}",
    "new entry \"X\"",
    "\u{df}\u{1f600};\u{e9}",
    "-12",
    "+9223372036854775807",
    "a\rb\r",
];

#[test]
fn white_space_is_that_of_unicode() {
    for c in '\0'..=char::MAX {
        assert_eq!(white(c), c.is_whitespace(), "{:?}", c);
    }
}

#[test]
fn texts_are_taken_apart_as_std_does() {
    for s in TEXTS {
        assert_eq!(trim(s), s.trim());
        assert_eq!(lines(s), s.lines().collect::<Vec<_>>());
        assert_eq!(split(s, ';'), s.split(';').collect::<Vec<_>>());
        assert_eq!(
            split_once(s, ';'),
            s.split_once(';').map(|(a, b)| (a.to_string(), b.to_string()))
        );
        assert_eq!(replace_all(s, ";", "--"), s.replace(';', "--"));
        assert_eq!(replace_once(s, ";", "--"), s.replacen(';', "--", 1));
        assert_eq!(to_ascii_lower(s), s.to_ascii_lowercase());
        assert_eq!(parse_i64(s), s.parse::<i64>().ok());
        let parts: Vec<String> = s.split(';').map(|p| p.to_string()).collect();
        assert_eq!(join(&parts, ";"), s);
        for t in TEXTS {
            assert_eq!(text_before(s, t), s < t);
            assert_eq!(eq_ignore_case(s, t), s.eq_ignore_ascii_case(t));
        }
    }
    assert_eq!(replace_all("aaa", "aa", "b"), "ba");
    assert_eq!(strip_prefix_ci("NEW Entry x", "new entry ").as_deref(), Some("x"));
    assert_eq!(strip_prefix_ci("ne", "new"), None);
}

#[test]
fn numbers_are_written_and_read() {
    for n in [0u64, 7, 10, 99, 100, u64::MAX] {
        assert_eq!(decimal_text(n), n.to_string());
    }
    for n in [i64::MIN, -1, 0, 1, i64::MAX] {
        assert_eq!(int_text(n), n.to_string());
        assert_eq!(parse_i64(&n.to_string()), Some(n));
    }
    for s in ["9223372036854775808", "-9223372036854775809", "+", "-", "1_0", "0x1", "--1", "+-1"] {
        assert_eq!(parse_i64(s), None);
    }
}

#[test]
fn maps_keep_their_keys_apart() {
    let mut m = TextMap::new();
    m.insert("a".to_string(), 1u64);
    m.insert("b".to_string(), 2u64);
    m.insert("a".to_string(), 3u64);
    assert_eq!(m.len(), 2);
    assert_eq!(m.get("a"), Some(&3));
    m.insert_new("b".to_string(), 9u64);
    assert_eq!(m.get("b"), Some(&2));
    assert_eq!(m.remove("a"), Some(3));
    assert_eq!(m.remove("a"), None);
    let mut other = TextMap::new();
    other.insert("b".to_string(), 5u64);
    other.insert("c".to_string(), 6u64);
    m.extend(other);
    assert_eq!((m.get("b"), m.get("c"), m.len()), (Some(&5), Some(&6), 2));
}

#[test]
fn paths_are_taken_apart() {
    assert_eq!(file_name_of("a/b/c.lsx").as_deref(), Some("c.lsx"));
    assert_eq!(extension_of("a/b.c/d").as_deref(), None);
    assert_eq!(extension_of("a/b.lsf.lsx").as_deref(), Some("lsx"));
    assert_eq!(stem_of("a/b.lsf.lsx"), "b.lsf");
    assert_eq!(sanitize_id("a-b c.d"), sanitize_id("a_b_c_d"));
    assert!(sanitize_id("x\u{e9}!").chars().all(|c| c.is_ascii_alphanumeric() || c == '_'));
    assert_eq!(quote_path("it's"), "'it''s'");
}

#[test]
fn resources_are_shared_out() {
    let (few_threads, few_files) = adaptive_pipeline_params(Some(1 << 30));
    let (threads, files) = adaptive_pipeline_params(Some(64 << 30));
    assert!(few_threads >= 1 && few_threads <= threads);
    assert!(few_files >= 1 && few_files <= files);
    assert_eq!(parse_threads(Some(16), Some(2)), 2);
    assert!(parse_threads(None, None) >= 1);
    assert!(shared_threads(Some(16), 4) >= 1);
}

fn plain_schema() -> DiscoveredSchema {
    discover_schema(&vec![])
}

#[test]
fn names_lead_to_tables() {
    assert_eq!(consolidate("lsx__Region__Node").as_deref(), Some("lsx__Region"));
    assert_eq!(consolidate("lsx__Region"), None);
    let mut schema = plain_schema();
    schema.renames.insert("was".to_string(), "loca__english".to_string());
    let found = schema.resolve_table("was").unwrap();
    assert_eq!(found, "loca__english");
    assert_eq!(schema.resolve_table(&found).unwrap(), found);
    assert_eq!(schema.resolve_table("loca__english__x").as_deref(), Some("loca__english"));
    assert_eq!(schema.resolve_table("nowhere"), None);
}

fn bound(v: &SqlValue) -> Value {
    match v {
        SqlValue::Null => Value::Null,
        SqlValue::Integer(n) => Value::Integer(*n),
        SqlValue::Real(s) | SqlValue::Text(s) => Value::Text(s.clone()),
    }
}

fn run_all(conn: &Connection, statements: &[Statement]) {
    for st in statements {
        conn.execute(&st.sql, params_from_iter(st.params.iter().map(bound))).unwrap();
    }
}

fn count(conn: &Connection, sql: &str) -> i64 {
    conn.query_row(sql, [], |row| row.get(0)).unwrap()
}

fn tables_of(schema: &DiscoveredSchema, prefix: &str) -> Connection {
    let conn = Connection::open_in_memory().unwrap();
    for (name, t) in &schema.tables.entries {
        if name.starts_with(prefix) {
            let columns: Vec<String> = t.columns.iter().map(|c| format!("\"{}\"", c.name)).collect();
            conn.execute_batch(&format!(
                "CREATE TABLE \"{name}\" (_file_id INTEGER, {})",
                columns.join(", ")
            ))
            .unwrap();
        }
    }
    conn
}

#[test]
fn components_and_modules_become_rows() {
    let schema = plain_schema();
    let conn = tables_of(&schema, "allspark__");
    let property = |guid: &str| SparkProperty {
        guid: guid.to_string(),
        name: "N".to_string(),
        value_type: "float".to_string(),
        specializable: true,
        tooltip: None,
        default_value: Some("1".to_string()),
    };
    let registry = SparkRegistry {
        components: vec![SparkComponent {
            name: "Comp".to_string(),
            tooltip: None,
            color: Some("red".to_string()),
            properties: vec![property("p-1"), property("p-2")],
            property_groups: vec![SparkGroup {
                guid: "g-1".to_string(),
                name: "G".to_string(),
                collapsed: None,
                property_refs: vec!["p-1".to_string(), "p-2".to_string()],
            }],
        }],
        modules: vec![SparkModule {
            guid: "m-1".to_string(),
            name: "M".to_string(),
            properties: vec![("p-1".to_string(), "N".to_string())],
        }],
    };
    run_all(&conn, &process_allspark(&registry, 3, &schema));
    assert_eq!(count(&conn, "SELECT COUNT(*) FROM allspark__components WHERE color = 'red'"), 1);
    assert_eq!(count(&conn, "SELECT SUM(specializable) FROM allspark__properties"), 2);
    assert_eq!(count(&conn, "SELECT COUNT(*) FROM allspark__property_groups"), 1);
    assert_eq!(
        count(&conn, "SELECT sort_order FROM allspark__property_group_refs WHERE property_guid = 'p-2'"),
        1
    );
    assert_eq!(count(&conn, "SELECT COUNT(*) FROM allspark__modules WHERE _file_id = 3"), 1);
    assert_eq!(count(&conn, "SELECT COUNT(*) FROM allspark__module_properties"), 1);
}

#[test]
fn effects_become_rows() {
    let schema = plain_schema();
    let conn = tables_of(&schema, "effect__");
    let component = |name: &str| EffectComponent {
        instance_name: name.to_string(),
        class_name: "Model".to_string(),
        start: "0".to_string(),
        end: "1".to_string(),
        properties: vec![EffectProperty {
            guid: "p".to_string(),
            data: vec![
                Datum {
                    platform: "pc".to_string(),
                    lod: "0".to_string(),
                    value: Some("1".to_string()),
                },
                Datum { platform: "pc".to_string(), lod: "1".to_string(), value: None },
            ],
        }],
    };
    let effect = Effect {
        id: "e-1".to_string(),
        version: "1".to_string(),
        effect_version: "2".to_string(),
        phases_xml: None,
        colors_xml: None,
        track_groups: vec![TrackGroup {
            name: "TG".to_string(),
            tracks: vec![Track {
                name: "T".to_string(),
                components: vec![component("a"), component("b")],
            }],
        }],
    };
    run_all(&conn, &process_effect(&effect, "file.lsfx", 4, &schema));
    let effects = count(&conn, "SELECT COUNT(*) FROM effect__effects WHERE id = 'e-1'");
    assert_eq!(effects, 1);
    assert_eq!(count(&conn, "SELECT COUNT(*) FROM effect__components WHERE track_group_name = 'TG'"), 2);
    assert_eq!(count(&conn, "SELECT COUNT(*) FROM effect__properties"), 2);
    assert_eq!(count(&conn, "SELECT COUNT(*) FROM effect__datums WHERE value = ''"), 2);
}

fn file(path: &str, file_type: FileType, text: &str) -> FileEntry {
    FileEntry::from_bytes(
        path.to_string(),
        file_type,
        "Shared".to_string(),
        TargetDb::Base,
        10,
        text.as_bytes().to_vec(),
    )
}

#[test]
fn definition_files_are_told_by_extension() {
    let read = |path: &str, text: &str| spark_source(&file(path, FileType::AllSpark, text)).unwrap();
    assert!(matches!(read("a.xcd", "<c/>"), SparkSource::Components(s) if s == "<c/>"));
    assert!(matches!(read("a.xmd", "<m/>"), SparkSource::Modules(s) if s == "<m/>"));
    assert!(matches!(read("a.xcd", "  \n"), SparkSource::Nothing));
    assert!(matches!(read("a.txt", "x"), SparkSource::Nothing));
}

fn attr(id: &str, value: &str) -> LsxNodeAttribute {
    LsxNodeAttribute {
        id: id.to_string(),
        attr_type: "FixedString".to_string(),
        value: value.to_string(),
        handle: None,
        version: None,
    }
}

#[test]
fn the_key_of_a_node_comes_first() {
    let node = LsxNode {
        id: "N".to_string(),
        attributes: vec![attr("Name", "n"), attr("UUID", "u"), attr("Empty", "")],
        children: vec![],
    };
    let resource = LsxResource {
        regions: vec![LsxRegion { id: "R".to_string(), nodes: vec![node] }],
    };
    let seen = Some(resource);
    let schema = discover_schema(&vec![discover_lsx(&seen)]);
    let parsed = build_parsed_node("R", &seen.unwrap().regions[0].nodes[0], &schema);
    assert_eq!(parsed.attrs[0].0, "uuid");
    assert!(parsed.attrs.iter().any(|a| a.0 == "name"));
    assert!(parsed.has_data);
}

#[test]
fn files_are_parsed_by_kind() {
    let schema = plain_schema();
    let resource = LsxResource {
        regions: vec![LsxRegion {
            id: "TLScene".to_string(),
            nodes: vec![LsxNode { id: "root".to_string(), attributes: vec![], children: vec![] }],
        }],
    };
    let lsx = parse_file(&file("a.lsx", FileType::Lsx, ""), &Some(resource), None, &schema);
    assert!(matches!(lsx.content, ParsedContent::Empty));
    let loca = file("b.xml", FileType::Loca, "<contentList><content contentuid=\"h\" version=\"1\">T</content></contentList>");
    let loca = parse_file(&loca, &None, None, &schema);
    assert!(matches!(loca.content, ParsedContent::Loca { entries } if entries.len() == 1));
}

#[test]
fn stats_lists_are_read() {
    let schema = plain_schema();
    match parse_equipment_content(
        "new equipment \"EQ\"\nadd initialweaponset \"Melee\"\nadd equipmentgroup\nadd equipment entry \"WPN_Sword\"\n",
        &schema,
    ) {
        ParsedContent::Equipment { entries } => {
            assert_eq!(entries.len(), 1);
            assert_eq!(entries[0].name, "EQ");
        }
        _ => panic!("equipment was given"),
    }
    match parse_modifier_content("modifier type \"Armor\"\nmodifier \"Weight\",\"ConstantFloat\"\n", &schema) {
        ParsedContent::Modifiers { entries } => {
            assert_eq!(entries[0].field_name, "Weight");
            assert_eq!(entries[0].field_type, "ConstantFloat");
        }
        _ => panic!("a modifier was given"),
    }
    assert!(matches!(parse_equipment_content("", &schema), ParsedContent::Empty));
}

#[test]
fn stats_entries_are_read() {
    let content = "new entry \"Base\"\ntype \"Armor\"\ndata \"Weight\" \"1.5\"\n\n// note\nnew entry \"Derived\"\ntype \"Armor\"\nusing \"Base\"\ndata \"Weight\" \"2\"\n";
    let schema = discover_schema(&vec![discover_stats(&Some(content.to_string()), "Armor")]);
    assert!(schema.tables.contains_key("stats__Armor"));
    let read = parse_stats_entries_content(content, &schema);
    assert_eq!(read.entries.len(), 2);
    assert_eq!(read.entries[1].entry_name, "Derived");
    assert_eq!(read.entries[1].entry_using.as_deref(), Some("Base"));
    assert_eq!(split_data_line("A\" \"b c\""), Some(("A".to_string(), "b c".to_string())));
    assert_eq!(split_data_line("A"), None);
    assert_eq!(parse_csv_values("\"a\",\"b,c\""), vec!["a", "b,c"]);
    match parse_stats_file(
        &file("Stats/Generated/Data/Armor.txt", FileType::Stats, content),
        &schema,
    ) {
        ParsedContent::Stats { entries, .. } => assert_eq!(entries.len(), 2),
        _ => panic!("entries were given"),
    }
}

#[test]
fn other_stats_are_read_by_their_first_words() {
    let content = "new itemcolor \"Red\",\"1\",\"2\",\"3\"\nnew itemcolor \"Blue\",\"4\",\"5\",\"6\"\n";
    let schema = discover_schema(&vec![discover_stats(&Some(content.to_string()), "ItemColor")]);
    let read = parse_nonstandard_stats_content(content, "ItemColor", &schema);
    let names: Vec<&str> = read.entries.iter().map(|e| e.entry_name.as_str()).collect();
    assert_eq!(names, vec!["Red", "Blue"]);
}
