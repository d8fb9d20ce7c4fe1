use bg3_refdb::loca::decode_xml_entities;
use bg3_refdb::lsx_writer::{
    entries_to_lsx, infer_attribute_type, reconstruct_lsx_entry, singularize, write_attribute,
    write_commented_entry, write_entry, xml_escape,
};
use bg3_refdb::models::{LsxAttribute, LsxChildEntry, LsxChildGroup, LsxEntry};
use bg3_refdb::textmap::TextMap;

fn attr(attr_type: &str, value: &str) -> LsxAttribute {
    LsxAttribute {
        attr_type: attr_type.to_string(),
        value: value.to_string(),
    }
}

fn attrs(list: &[(&str, &str, &str)]) -> TextMap<LsxAttribute> {
    let mut map = TextMap::new();
    for (name, attr_type, value) in list {
        map.insert(name.to_string(), attr(attr_type, value));
    }
    map
}

#[test]
fn test_simple_entry_xml() {
    let entry = LsxEntry {
        uuid: "abc-123".to_string(),
        node_id: "Progression".to_string(),
        region_id: String::new(),
        attributes: attrs(&[
            ("UUID", "guid", "abc-123"),
            ("Name", "LSString", "TestProgression"),
        ]),
        children: vec![],
        commented: false,
    };

    let xml = entries_to_lsx(&vec![entry], "Progressions");
    assert!(xml.contains("<?xml version=\"1.0\" encoding=\"utf-8\"?>"));
    assert!(xml.contains("<region id=\"Progressions\">"));
    assert!(xml.contains("<node id=\"Progression\">"));
    assert!(xml.contains("id=\"UUID\" type=\"guid\" value=\"abc-123\""));
    assert!(xml.contains("id=\"Name\" type=\"LSString\" value=\"TestProgression\""));
}

#[test]
fn test_entry_with_children() {
    let entry = LsxEntry {
        uuid: "abc-123".to_string(),
        node_id: "Progression".to_string(),
        region_id: String::new(),
        attributes: attrs(&[("UUID", "guid", "abc-123")]),
        commented: false,
        children: vec![LsxChildGroup {
            group_id: "SubClasses".to_string(),
            entries: vec![LsxChildEntry {
                node_id: "SubClass".to_string(),
                object_guid: "def-456".to_string(),
            }],
        }],
    };

    let xml = entries_to_lsx(&vec![entry], "Progressions");
    assert!(xml.contains("<node id=\"SubClasses\">"));
    assert!(xml.contains("<node id=\"SubClass\">"));
    assert!(xml.contains("id=\"Object\" type=\"guid\" value=\"def-456\""));
}

#[test]
fn test_translated_string_uses_handle() {
    let entry = LsxEntry {
        uuid: "abc-123".to_string(),
        node_id: "Origin".to_string(),
        region_id: String::new(),
        attributes: attrs(&[("DisplayName", "TranslatedString", "h12345")]),
        children: vec![],
        commented: false,
    };

    let xml = entries_to_lsx(&vec![entry], "Origins");
    assert!(xml.contains("handle=\"h12345\""));
    assert!(!xml.contains("value=\"h12345\""));
}

#[test]
fn test_xml_escaping() {
    let entry = LsxEntry {
        uuid: "abc-123".to_string(),
        node_id: "Test".to_string(),
        commented: false,
        region_id: String::new(),
        attributes: attrs(&[("Name", "LSString", "A & B <C> \"D\"")]),
        children: vec![],
    };

    let xml = entries_to_lsx(&vec![entry], "Test");
    assert!(xml.contains("A &amp; B &lt;C&gt; &quot;D&quot;"));
}

#[test]
fn test_reconstruct_lsx_entry() {
    let mut raw = TextMap::new();
    raw.insert("UUID".to_string(), "abc-123".to_string());
    raw.insert("Name".to_string(), "Test".to_string());

    let mut types = TextMap::new();
    types.insert("UUID".to_string(), "guid".to_string());
    types.insert("Name".to_string(), "LSString".to_string());

    let mut children = TextMap::new();
    children.insert("SubClasses".to_string(), vec!["def-456".to_string()]);

    let entry = reconstruct_lsx_entry("abc-123", "Progression", &raw, &types, &children);

    assert_eq!(entry.uuid, "abc-123");
    assert_eq!(entry.node_id, "Progression");
    assert_eq!(entry.attributes.get("UUID").unwrap().attr_type, "guid");
    assert_eq!(entry.attributes.get("Name").unwrap().attr_type, "LSString");
    assert_eq!(entry.children.len(), 1);
    assert_eq!(entry.children[0].group_id, "SubClasses");
    assert_eq!(entry.children[0].entries[0].node_id, "SubClasse");
    assert_eq!(entry.children[0].entries[0].object_guid, "def-456");
}

#[test]
fn test_infer_attribute_type() {
    assert_eq!(infer_attribute_type("UUID", "abc"), "guid");
    assert_eq!(
        infer_attribute_type("SomeField", "12345678-1234-1234-1234-123456789012"),
        "guid"
    );
    assert_eq!(infer_attribute_type("IsNew", "true"), "bool");
    assert_eq!(infer_attribute_type("Level", "5"), "int32");
    assert_eq!(infer_attribute_type("Name", "TestName"), "FixedString");
}

#[test]
fn test_commented_entry() {
    let entry = LsxEntry {
        uuid: "abc-123".to_string(),
        node_id: "Progression".to_string(),
        commented: true,
        region_id: String::new(),
        attributes: attrs(&[("UUID", "guid", "abc-123")]),
        children: vec![],
    };

    let xml = entries_to_lsx(&vec![entry], "Progressions");
    assert!(xml.contains("<!--"));
    assert!(xml.contains("-->"));
    assert!(xml.contains("<node id=\"Progression\">"));
    assert!(xml.contains("id=\"UUID\" type=\"guid\" value=\"abc-123\""));
}

#[test]
fn attribute_element_is_exact() {
    let mut out = String::new();
    write_attribute(&mut out, "Level", &attr("int32", "5"), 3);
    assert_eq!(out, "   <attribute id=\"Level\" type=\"int32\" value=\"5\" />\n");
    out.clear();
    write_attribute(&mut out, "T", &attr("TranslatedFSString", "h1"), 0);
    assert_eq!(out, "<attribute id=\"T\" type=\"TranslatedFSString\" handle=\"h1\" />\n");
}

#[test]
fn escaped_text_is_plain() {
    let escaped = xml_escape("a<b>c\"d&e");
    assert_eq!(escaped, "a&lt;b&gt;c&quot;d&amp;e");
    assert!(!escaped.contains('<') && !escaped.contains('>') && !escaped.contains('"'));
    assert_eq!(xml_escape(""), "");
}

#[test]
fn keys_come_first_and_names_in_order() {
    let entry = LsxEntry {
        uuid: "u".to_string(),
        node_id: "N".to_string(),
        region_id: String::new(),
        attributes: attrs(&[
            ("Zeta", "LSString", "z"),
            ("UUID", "guid", "u"),
            ("Alpha", "LSString", "a"),
        ]),
        children: vec![],
        commented: false,
    };
    let xml = entries_to_lsx(&vec![entry], "R");
    let uuid = xml.find("id=\"UUID\"").unwrap();
    let alpha = xml.find("id=\"Alpha\"").unwrap();
    let zeta = xml.find("id=\"Zeta\"").unwrap();
    assert!(uuid < alpha && alpha < zeta);
}

#[test]
fn singular_drops_one_s() {
    assert_eq!(singularize("EyeColors"), "EyeColor");
    assert_eq!(singularize("SubClass"), "SubClas");
    assert_eq!(singularize("Feat"), "Feat");
    assert_eq!(singularize("s"), "s");
}

fn node(attributes: TextMap<LsxAttribute>, commented: bool) -> LsxEntry {
    LsxEntry {
        uuid: "u".to_string(),
        node_id: "N".to_string(),
        region_id: String::new(),
        attributes,
        children: vec![],
        commented,
    }
}

#[test]
fn files_do_not_depend_on_the_order_of_attributes() {
    let list = [
        ("UUID", "guid", "u"),
        ("Name", "LSString", "n"),
        ("MapKey", "FixedString", "k"),
        ("Age", "int32", "3"),
    ];
    let mut turned = list;
    turned.reverse();
    for commented in [false, true] {
        let one = entries_to_lsx(&vec![node(attrs(&list), commented)], "R");
        let two = entries_to_lsx(&vec![node(attrs(&turned), commented)], "R");
        assert_eq!(one, two);
        let at = |id: &str| one.find(&format!("<attribute id=\"{id}\"")).unwrap();
        assert!(at("MapKey") < at("UUID") && at("UUID") < at("Age") && at("Age") < at("Name"));
        assert_eq!(one.matches("<attribute id=").count(), 4);
    }
}

#[test]
fn comments_end_where_they_were_closed() {
    let entry = node(attrs(&[("Note", "LSString", "a --> b"), ("-->", "-->", "--")]), true);
    let mut body = String::new();
    write_entry(&mut body, &entry, 6);
    assert!(!body.contains("-->"));
    let mut out = "x".to_string();
    write_commented_entry(&mut out, &entry, 4);
    assert_eq!(out, format!("x    <!--\n{body}    -->\n"));
    assert_eq!(out.matches("-->").count(), 1);
}

#[test]
fn decoding_gives_back_what_was_escaped() {
    for s in ["", "a < b && c > \"d\"", "&amp;", "&lt;&gt;", "&&quo;t", "it's", "&apos", "h\u{e9}"] {
        assert_eq!(decode_xml_entities(&xml_escape(s)), s);
    }
    assert_eq!(decode_xml_entities(&xml_escape("&quot;")), "\"");
    assert_eq!(decode_xml_entities(&xml_escape("&apos;")), "'");
}
