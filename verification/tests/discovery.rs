use bg3_refdb::discovery::{
    discover_lsx, merge_discovery, table_for_node, FileDiscovery, RawTableInfo,
};
use bg3_refdb::fixed_tables::{
    discover_allspark, discover_effect, discover_equipment, discover_loca, discover_modifiers,
    discover_valuelists,
};
use bg3_refdb::models::{LsxNode, LsxNodeAttribute, LsxRegion, LsxResource};
use bg3_refdb::schema::PkStrategy;
use bg3_refdb::schema_build::discover_schema;
use bg3_refdb::stats_text::{capitalize_first, is_stats_loca_column};
use bg3_refdb::textmap::TextMap;

#[test]
fn discover_loca_creates_expected_table() {
    let mut tables = TextMap::new();
    discover_loca(&mut tables);

    assert!(
        tables.contains_key("loca__english"),
        "loca__english table should exist"
    );
    let info = tables.get("loca__english").unwrap();
    assert!(info.columns.contains_key("contentuid"));
    assert!(info.columns.contains_key("text"));
    assert!(info.columns.contains_key("version"));
}

#[test]
fn discover_allspark_creates_expected_tables() {
    let mut tables = TextMap::new();
    discover_allspark(&mut tables);

    assert!(
        tables.contains_key("allspark__components"),
        "allspark__components table should exist"
    );
    assert!(
        tables.contains_key("allspark__properties"),
        "allspark__properties table should exist"
    );
    assert!(
        tables.contains_key("allspark__modules"),
        "allspark__modules table should exist"
    );
    let info = tables.get("allspark__components").unwrap();
    assert!(info.columns.contains_key("name"));
    assert!(info.columns.contains_key("tooltip"));
}

#[test]
fn discover_effect_creates_expected_tables() {
    let mut tables = TextMap::new();
    discover_effect(&mut tables);

    assert!(
        tables.contains_key("effect__effects"),
        "effect__effects table should exist"
    );
    assert!(
        tables.contains_key("effect__components"),
        "effect__components table should exist"
    );
    assert!(
        tables.contains_key("effect__properties"),
        "effect__properties table should exist"
    );
    assert!(
        tables.contains_key("effect__datums"),
        "effect__datums table should exist"
    );
    let info = tables.get("effect__components").unwrap();
    assert!(info.columns.contains_key("instance_name"));
    assert!(info.columns.contains_key("class_name"));
}

#[test]
fn discover_equipment_creates_expected_table() {
    let mut tables = TextMap::new();
    discover_equipment(&mut tables);

    assert!(
        tables.contains_key("stats__equipment"),
        "stats__equipment table should exist"
    );
    let info = tables.get("stats__equipment").unwrap();
    assert!(info.columns.contains_key("_entry_name"));
    assert_eq!(info.source_type, "equipment");
}

#[test]
fn discover_valuelists_creates_expected_table() {
    let mut tables = TextMap::new();
    discover_valuelists(&mut tables);

    assert!(
        tables.contains_key("valuelist_entries"),
        "valuelist_entries table should exist"
    );
    let info = tables.get("valuelist_entries").unwrap();
    assert!(info.columns.contains_key("list_key"));
    assert!(info.columns.contains_key("value_name"));
    assert!(info.columns.contains_key("value_index"));
}

#[test]
fn discover_modifiers_creates_expected_table() {
    let mut tables = TextMap::new();
    discover_modifiers(&mut tables);

    assert!(
        tables.contains_key("modifier_definitions"),
        "modifier_definitions table should exist"
    );
    let info = tables.get("modifier_definitions").unwrap();
    assert!(info.columns.contains_key("type_name"));
    assert!(info.columns.contains_key("field_name"));
    assert!(info.columns.contains_key("field_type"));
}

#[test]
fn is_stats_loca_column_recognizes_known_columns() {
    assert!(is_stats_loca_column("DisplayName"));
    assert!(is_stats_loca_column("Description"));
    assert!(is_stats_loca_column("ExtraDescription"));
    assert!(is_stats_loca_column("ShortDescription"));
    assert!(is_stats_loca_column("LoreDescription"));
    assert!(is_stats_loca_column("TooltipUpcastDescription"));
}

#[test]
fn is_stats_loca_column_rejects_non_loca() {
    assert!(!is_stats_loca_column("UUID"));
    assert!(!is_stats_loca_column("Level"));
    assert!(!is_stats_loca_column("SpellType"));
    assert!(!is_stats_loca_column(""));
    assert!(!is_stats_loca_column("DisplayName_version"));
    assert!(!is_stats_loca_column("DescriptionParams"));
}

#[test]
fn merge_discovery_combines_columns() {
    let mut global = FileDiscovery::new();

    let mut local = FileDiscovery::new();
    let mut info = RawTableInfo::new("lsx");
    info.columns.insert("UUID".to_string(), "guid".to_string());
    info.columns
        .insert("Name".to_string(), "FixedString".to_string());
    local.tables.insert("test_table".to_string(), info);

    merge_discovery(&mut global, &local);

    assert!(global.tables.contains_key("test_table"));
    assert_eq!(global.tables.get("test_table").unwrap().columns.len(), 2);

    let mut local2 = FileDiscovery::new();
    let mut info2 = RawTableInfo::new("lsx");
    info2
        .columns
        .insert("Level".to_string(), "int32".to_string());
    local2.tables.insert("test_table".to_string(), info2);

    merge_discovery(&mut global, &local2);

    assert_eq!(global.tables.get("test_table").unwrap().columns.len(), 3);
    assert!(global
        .tables
        .get("test_table")
        .unwrap()
        .columns
        .contains_key("Level"));
}

fn node_attr(id: &str, attr_type: &str, value: &str) -> LsxNodeAttribute {
    LsxNodeAttribute {
        id: id.to_string(),
        attr_type: attr_type.to_string(),
        value: value.to_string(),
        handle: None,
        version: None,
    }
}

fn race_file() -> LsxResource {
    LsxResource {
        regions: vec![LsxRegion {
            id: "Races".to_string(),
            nodes: vec![LsxNode {
                id: "root".to_string(),
                attributes: vec![],
                children: vec![LsxNode {
                    id: "Race".to_string(),
                    attributes: vec![
                        node_attr("UUID", "guid", "r-1"),
                        node_attr("Name", "FixedString", "Human"),
                        node_attr("ZOrder", "int32", "1"),
                        node_attr("Age", "int32", "2"),
                    ],
                    children: vec![LsxNode {
                        id: "EyeColors".to_string(),
                        attributes: vec![node_attr("Object", "guid", "c-1")],
                        children: vec![],
                    }],
                }],
            }],
        }],
    }
}

#[test]
fn schema_has_tables_keys_and_junctions() {
    let seen = discover_lsx(&Some(race_file()));
    let schema = discover_schema(&vec![seen]);
    let race = schema
        .resolve_table(&table_for_node("Races", "Race"))
        .expect("races have a table");
    let t = schema.tables.get(&race).unwrap();
    assert!(t.pk_strategy == PkStrategy::Uuid);
    let names: Vec<&str> = t.columns.iter().map(|c| c.name.as_str()).collect();
    let mut sorted = names.clone();
    sorted.sort();
    assert_eq!(names, sorted);
    assert!(names.contains(&"Name") && !names.contains(&"UUID"));
    for j in &schema.junction_tables {
        assert!(schema.tables.contains_key(&j.parent_table));
        assert!(schema.tables.contains_key(&j.child_table));
    }
    assert!(schema.junction_tables.iter().any(|j| j.parent_table == race));
}

#[test]
fn schema_fits_together() {
    let seen = discover_lsx(&Some(race_file()));
    let mut more = FileDiscovery::new();
    let mut info = RawTableInfo::new("lsx");
    info.columns.insert("DisplayName".to_string(), "TranslatedString".to_string());
    more.tables.insert("lsx__Test".to_string(), info);
    let schema = discover_schema(&vec![seen, more]);
    let mut fks = 0;
    for (name, t) in &schema.tables.entries {
        for fk in &t.fk_constraints {
            assert!(schema.tables.contains_key(&fk.target_table), "{name}.{}", fk.source_column);
            fks += 1;
        }
        if t.pk_strategy != PkStrategy::Rowid {
            assert!(t.columns.iter().all(|c| c.name != t.pk_strategy.pk_column()));
        }
    }
    assert!(fks > 0);
    for pair in schema.junction_tables.windows(2) {
        assert!(pair[0].table_name <= pair[1].table_name);
    }
    for j in &schema.junction_tables {
        let found = schema.junction_lookup.get(&j.parent_table).and_then(|m| m.get(&j.child_table));
        assert_eq!(found, Some(&j.table_name));
    }
    let listed: usize = schema.junction_lookup.entries.iter().map(|(_, m)| m.entries.len()).sum();
    assert!(listed > 0 && listed <= schema.junction_tables.len());
}

#[test]
fn columns_that_differ_in_case_count_once() {
    let mut seen = FileDiscovery::new();
    let mut info = RawTableInfo::new("lsx");
    info.columns.insert("UUID".to_string(), "guid".to_string());
    info.columns.insert("name".to_string(), "FixedString".to_string());
    info.columns.insert("Name".to_string(), "FixedString".to_string());
    seen.tables.insert("lsx__Test".to_string(), info);
    let schema = discover_schema(&vec![seen]);
    let t = schema.tables.get("lsx__Test").unwrap();
    let alike: Vec<&str> = t
        .columns
        .iter()
        .map(|c| c.name.as_str())
        .filter(|n| n.eq_ignore_ascii_case("name"))
        .collect();
    assert_eq!(alike, vec!["Name"]);
}

#[test]
fn first_letter_is_put_in_upper_case() {
    assert_eq!(capitalize_first("boost"), "Boost");
    assert_eq!(capitalize_first("\u{df}a"), "SSa");
    assert_eq!(capitalize_first(""), "");
}
