use bg3_refdb::infer::infer_schemas;
use bg3_refdb::models::{LsxAttribute, LsxChildEntry, LsxChildGroup, LsxEntry, Section};
use bg3_refdb::textmap::TextMap;

fn make_entry(uuid: &str, node_id: &str, attrs: Vec<(&str, &str, &str)>) -> LsxEntry {
    let mut attributes = TextMap::new();
    for (name, attr_type, value) in attrs {
        attributes.insert(
            name.to_string(),
            LsxAttribute {
                attr_type: attr_type.to_string(),
                value: value.to_string(),
            },
        );
    }
    LsxEntry {
        uuid: uuid.to_string(),
        node_id: node_id.to_string(),
        attributes,
        children: vec![],
        commented: false,
        region_id: String::new(),
    }
}

fn section(name: &str) -> Section {
    Section {
        name: name.to_string(),
        region_id: name.to_string(),
        region_ids: vec![name.to_string()],
    }
}

fn frequency(count: u64, samples: usize) -> f64 {
    count as f64 / samples as f64
}

#[test]
fn test_infer_schemas_basic() {
    let mut gods = TextMap::new();
    gods.insert(
        "uuid-1".to_string(),
        make_entry(
            "uuid-1",
            "God",
            vec![
                ("UUID", "guid", "uuid-1"),
                ("Name", "FixedString", "Selune"),
                ("Description", "TranslatedString", "h123"),
            ],
        ),
    );
    gods.insert(
        "uuid-2".to_string(),
        make_entry(
            "uuid-2",
            "God",
            vec![
                ("UUID", "guid", "uuid-2"),
                ("Name", "FixedString", "Mystra"),
                ("Tag", "guid", "tag-uuid"),
            ],
        ),
    );

    let schemas = infer_schemas(&vec![(section("Gods"), gods)]);
    assert_eq!(schemas.len(), 1);

    let god_schema = &schemas[0];
    assert_eq!(god_schema.node_id, "God");
    assert_eq!(god_schema.sample_count, 2);

    assert_eq!(god_schema.attributes[0].name, "UUID");
    assert_eq!(god_schema.attributes[0].attr_type, "guid");
    let n = god_schema.sample_count;
    assert!((frequency(god_schema.attributes[0].count, n) - 1.0).abs() < 0.01);

    let name_attr = god_schema
        .attributes
        .iter()
        .find(|a| a.name == "Name")
        .unwrap();
    assert!((frequency(name_attr.count, n) - 1.0).abs() < 0.01);

    let desc = god_schema
        .attributes
        .iter()
        .find(|a| a.name == "Description")
        .unwrap();
    assert!((frequency(desc.count, n) - 0.5).abs() < 0.01);
}

#[test]
fn test_infer_schemas_with_children() {
    let mut races = TextMap::new();
    let mut race = make_entry("uuid-1", "Race", vec![("UUID", "guid", "uuid-1")]);
    race.children = vec![LsxChildGroup {
        group_id: "EyeColors".to_string(),
        entries: vec![LsxChildEntry {
            node_id: "EyeColor".to_string(),
            object_guid: "color-1".to_string(),
        }],
    }];
    races.insert("uuid-1".to_string(), race);

    let schemas = infer_schemas(&vec![(section("Races"), races)]);
    let race = schemas.iter().find(|s| s.node_id == "Race").unwrap();
    assert_eq!(race.children.len(), 1);
    assert_eq!(race.children[0].group_id, "EyeColors");
    assert_eq!(race.children[0].child_node_id, "EyeColor");
    assert!((frequency(race.children[0].count, race.sample_count) - 1.0).abs() < 0.01);
}

#[test]
fn examples_are_few_and_distinct() {
    let mut map = TextMap::new();
    for i in 0..9 {
        let uuid = format!("uuid-{i}");
        let name = format!("Name {}", i % 6);
        map.insert(
            uuid.clone(),
            make_entry(&uuid, "N", vec![("Name", "LSString", &name)]),
        );
    }
    let schemas = infer_schemas(&vec![(section("S"), map)]);
    let name = schemas[0].attributes.iter().find(|a| a.name == "Name").unwrap();
    assert_eq!(name.count, 9);
    assert!(name.examples.len() <= 5);
    for i in 0..name.examples.len() {
        for j in 0..i {
            assert_ne!(name.examples[i], name.examples[j]);
        }
    }
}

#[test]
fn entries_count_once_for_each_group() {
    let group = |id: &str| LsxChildGroup { group_id: id.to_string(), entries: vec![] };
    let mut races = TextMap::new();
    let mut race = make_entry("uuid-1", "Race", vec![("UUID", "guid", "uuid-1")]);
    race.children = vec![group("EyeColors"), group("EyeColors")];
    races.insert("uuid-1".to_string(), race);
    let schemas = infer_schemas(&vec![(section("Races"), races)]);
    assert_eq!(schemas[0].sample_count, 1);
    assert_eq!(schemas[0].children.len(), 1);
    assert_eq!(schemas[0].children[0].count, 1);
    assert_eq!(schemas[0].children[0].child_node_id, "");
}
