//! The tables whose columns do not depend on the files.

use vstd::prelude::*;
use crate::discovery::{RawModel, RawTableInfo};
use crate::discovery;
use crate::text::owned;
use crate::textmap;
use crate::textmap::TextMap;

verus! {

/// A table with the given columns.
pub open spec fn fixed_table(
    source_type: Seq<char>,
    columns: Seq<(Seq<char>, Seq<char>)>,
) -> RawModel {
    RawModel { columns, ..discovery::blank_table(source_type) }
}

/// A table with the given columns.
#[verifier::loop_isolation(false)]
pub fn table_with(source_type: &str, columns: &Vec<(&'static str, &'static str)>) -> (r: RawTableInfo)
    ensures
        r.deep_view() == fixed_table(source_type@, columns.deep_view()),
{
    let ghost all = columns.deep_view();
    let mut list: Vec<(String, String)> = Vec::new();
    let mut i: usize = 0;
    while i < columns.len()
        invariant
            i <= columns@.len(),
            list.deep_view() == all.take(i as int),
        decreases columns@.len() - i,
    {
        list.push((owned(columns[i].0), owned(columns[i].1)));
        i += 1;
        assert(list.deep_view() =~= all.take(i as int));
    }
    assert(all.take(i as int) =~= all);
    let mut r = RawTableInfo::new(source_type);
    r.columns = TextMap { entries: list };
    r
}

/// The table `loca__english`.
pub open spec fn loca_english_table() -> RawModel {
    fixed_table("loca"@, seq![("contentuid"@, "FixedString"@), ("version"@, "int32"@), ("text"@, "LSString"@)])
}

fn make_loca_english_table() -> (r: RawTableInfo)
    ensures
        r.deep_view() == loca_english_table(),
{
    let columns: Vec<(&'static str, &'static str)> = vec![("contentuid", "FixedString"), ("version", "int32"), ("text", "LSString")];
    assert(columns.deep_view() =~= loca_english_table().columns);
    table_with("loca", &columns)
}

/// The tables with the localization table.
pub open spec fn with_loca(tables: Seq<(Seq<char>, RawModel)>) -> Seq<(Seq<char>, RawModel)> {
    textmap::with_default(tables, "loca__english"@, loca_english_table())
}

/// Adds the localization table, where not there.
pub fn discover_loca(tables: &mut TextMap<RawTableInfo>)
    ensures
        final(tables).deep_view() == with_loca(old(tables).deep_view()),
{
    tables.insert_new(owned("loca__english"), make_loca_english_table());
}

/// The table `allspark__components`.
pub open spec fn allspark_components_table() -> RawModel {
    fixed_table("allspark"@, seq![("name"@, "FixedString"@), ("tooltip"@, "LSString"@), ("color"@, "FixedString"@)])
}

fn make_allspark_components_table() -> (r: RawTableInfo)
    ensures
        r.deep_view() == allspark_components_table(),
{
    let columns: Vec<(&'static str, &'static str)> = vec![("name", "FixedString"), ("tooltip", "LSString"), ("color", "FixedString")];
    assert(columns.deep_view() =~= allspark_components_table().columns);
    table_with("allspark", &columns)
}

/// The table `allspark__properties`.
pub open spec fn allspark_properties_table() -> RawModel {
    fixed_table("allspark"@, seq![("guid"@, "FixedString"@), ("component_name"@, "FixedString"@), ("name"@, "FixedString"@), ("type_name"@, "FixedString"@), ("specializable"@, "bool"@), ("tooltip"@, "LSString"@), ("default_value"@, "LSString"@)])
}

fn make_allspark_properties_table() -> (r: RawTableInfo)
    ensures
        r.deep_view() == allspark_properties_table(),
{
    let columns: Vec<(&'static str, &'static str)> = vec![("guid", "FixedString"), ("component_name", "FixedString"), ("name", "FixedString"), ("type_name", "FixedString"), ("specializable", "bool"), ("tooltip", "LSString"), ("default_value", "LSString")];
    assert(columns.deep_view() =~= allspark_properties_table().columns);
    table_with("allspark", &columns)
}

/// The table `allspark__property_groups`.
pub open spec fn allspark_property_groups_table() -> RawModel {
    fixed_table("allspark"@, seq![("guid"@, "FixedString"@), ("component_name"@, "FixedString"@), ("name"@, "FixedString"@), ("collapsed"@, "FixedString"@), ("sort_order"@, "int32"@)])
}

fn make_allspark_property_groups_table() -> (r: RawTableInfo)
    ensures
        r.deep_view() == allspark_property_groups_table(),
{
    let columns: Vec<(&'static str, &'static str)> = vec![("guid", "FixedString"), ("component_name", "FixedString"), ("name", "FixedString"), ("collapsed", "FixedString"), ("sort_order", "int32")];
    assert(columns.deep_view() =~= allspark_property_groups_table().columns);
    table_with("allspark", &columns)
}

/// The table `allspark__property_group_refs`.
pub open spec fn allspark_property_group_refs_table() -> RawModel {
    fixed_table("allspark"@, seq![("group_guid"@, "FixedString"@), ("component_name"@, "FixedString"@), ("property_guid"@, "FixedString"@), ("sort_order"@, "int32"@)])
}

fn make_allspark_property_group_refs_table() -> (r: RawTableInfo)
    ensures
        r.deep_view() == allspark_property_group_refs_table(),
{
    let columns: Vec<(&'static str, &'static str)> = vec![("group_guid", "FixedString"), ("component_name", "FixedString"), ("property_guid", "FixedString"), ("sort_order", "int32")];
    assert(columns.deep_view() =~= allspark_property_group_refs_table().columns);
    table_with("allspark", &columns)
}

/// The table `allspark__modules`.
pub open spec fn allspark_modules_table() -> RawModel {
    fixed_table("allspark"@, seq![("guid"@, "FixedString"@), ("name"@, "FixedString"@)])
}

fn make_allspark_modules_table() -> (r: RawTableInfo)
    ensures
        r.deep_view() == allspark_modules_table(),
{
    let columns: Vec<(&'static str, &'static str)> = vec![("guid", "FixedString"), ("name", "FixedString")];
    assert(columns.deep_view() =~= allspark_modules_table().columns);
    table_with("allspark", &columns)
}

/// The table `allspark__module_properties`.
pub open spec fn allspark_module_properties_table() -> RawModel {
    fixed_table("allspark"@, seq![("module_guid"@, "FixedString"@), ("property_guid"@, "FixedString"@), ("property_name"@, "FixedString"@)])
}

fn make_allspark_module_properties_table() -> (r: RawTableInfo)
    ensures
        r.deep_view() == allspark_module_properties_table(),
{
    let columns: Vec<(&'static str, &'static str)> = vec![("module_guid", "FixedString"), ("property_guid", "FixedString"), ("property_name", "FixedString")];
    assert(columns.deep_view() =~= allspark_module_properties_table().columns);
    table_with("allspark", &columns)
}

/// The tables with the component and module definition tables.
pub open spec fn with_allspark(tables: Seq<(Seq<char>, RawModel)>) -> Seq<(Seq<char>, RawModel)> {
    textmap::with_default(textmap::with_default(textmap::with_default(textmap::with_default(textmap::with_default(textmap::with_default(tables, "allspark__components"@, allspark_components_table()), "allspark__properties"@, allspark_properties_table()), "allspark__property_groups"@, allspark_property_groups_table()), "allspark__property_group_refs"@, allspark_property_group_refs_table()), "allspark__modules"@, allspark_modules_table()), "allspark__module_properties"@, allspark_module_properties_table())
}

/// Adds the component and module definition tables, where not there.
pub fn discover_allspark(tables: &mut TextMap<RawTableInfo>)
    ensures
        final(tables).deep_view() == with_allspark(old(tables).deep_view()),
{
    tables.insert_new(owned("allspark__components"), make_allspark_components_table());
    tables.insert_new(owned("allspark__properties"), make_allspark_properties_table());
    tables.insert_new(owned("allspark__property_groups"), make_allspark_property_groups_table());
    tables.insert_new(owned("allspark__property_group_refs"), make_allspark_property_group_refs_table());
    tables.insert_new(owned("allspark__modules"), make_allspark_modules_table());
    tables.insert_new(owned("allspark__module_properties"), make_allspark_module_properties_table());
}

/// The table `effect__effects`.
pub open spec fn effect_effects_table() -> RawModel {
    fixed_table("effect"@, seq![("id"@, "FixedString"@), ("version"@, "FixedString"@), ("effect_version"@, "FixedString"@), ("phases_xml"@, "LSString"@), ("colors_xml"@, "LSString"@), ("source_file"@, "FixedString"@)])
}

fn make_effect_effects_table() -> (r: RawTableInfo)
    ensures
        r.deep_view() == effect_effects_table(),
{
    let columns: Vec<(&'static str, &'static str)> = vec![("id", "FixedString"), ("version", "FixedString"), ("effect_version", "FixedString"), ("phases_xml", "LSString"), ("colors_xml", "LSString"), ("source_file", "FixedString")];
    assert(columns.deep_view() =~= effect_effects_table().columns);
    table_with("effect", &columns)
}

/// The table `effect__components`.
pub open spec fn effect_components_table() -> RawModel {
    fixed_table("effect"@, seq![("instance_name"@, "FixedString"@), ("class_name"@, "FixedString"@), ("start"@, "FixedString"@), ("end"@, "FixedString"@), ("track_name"@, "FixedString"@), ("track_group_name"@, "FixedString"@), ("effect_id"@, "FixedString"@), ("source_file"@, "FixedString"@)])
}

fn make_effect_components_table() -> (r: RawTableInfo)
    ensures
        r.deep_view() == effect_components_table(),
{
    let columns: Vec<(&'static str, &'static str)> = vec![("instance_name", "FixedString"), ("class_name", "FixedString"), ("start", "FixedString"), ("end", "FixedString"), ("track_name", "FixedString"), ("track_group_name", "FixedString"), ("effect_id", "FixedString"), ("source_file", "FixedString")];
    assert(columns.deep_view() =~= effect_components_table().columns);
    table_with("effect", &columns)
}

/// The table `effect__properties`.
pub open spec fn effect_properties_table() -> RawModel {
    fixed_table("effect"@, seq![("property_guid"@, "FixedString"@), ("component_instance"@, "FixedString"@), ("effect_id"@, "FixedString"@), ("source_file"@, "FixedString"@)])
}

fn make_effect_properties_table() -> (r: RawTableInfo)
    ensures
        r.deep_view() == effect_properties_table(),
{
    let columns: Vec<(&'static str, &'static str)> = vec![("property_guid", "FixedString"), ("component_instance", "FixedString"), ("effect_id", "FixedString"), ("source_file", "FixedString")];
    assert(columns.deep_view() =~= effect_properties_table().columns);
    table_with("effect", &columns)
}

/// The table `effect__datums`.
pub open spec fn effect_datums_table() -> RawModel {
    fixed_table("effect"@, seq![("property_guid"@, "FixedString"@), ("component_instance"@, "FixedString"@), ("platform"@, "FixedString"@), ("lod"@, "FixedString"@), ("value"@, "LSString"@), ("effect_id"@, "FixedString"@), ("source_file"@, "FixedString"@)])
}

fn make_effect_datums_table() -> (r: RawTableInfo)
    ensures
        r.deep_view() == effect_datums_table(),
{
    let columns: Vec<(&'static str, &'static str)> = vec![("property_guid", "FixedString"), ("component_instance", "FixedString"), ("platform", "FixedString"), ("lod", "FixedString"), ("value", "LSString"), ("effect_id", "FixedString"), ("source_file", "FixedString")];
    assert(columns.deep_view() =~= effect_datums_table().columns);
    table_with("effect", &columns)
}

/// The tables with the toolkit effect tables.
pub open spec fn with_effect(tables: Seq<(Seq<char>, RawModel)>) -> Seq<(Seq<char>, RawModel)> {
    textmap::with_default(textmap::with_default(textmap::with_default(textmap::with_default(tables, "effect__effects"@, effect_effects_table()), "effect__components"@, effect_components_table()), "effect__properties"@, effect_properties_table()), "effect__datums"@, effect_datums_table())
}

/// Adds the toolkit effect tables, where not there.
pub fn discover_effect(tables: &mut TextMap<RawTableInfo>)
    ensures
        final(tables).deep_view() == with_effect(old(tables).deep_view()),
{
    tables.insert_new(owned("effect__effects"), make_effect_effects_table());
    tables.insert_new(owned("effect__components"), make_effect_components_table());
    tables.insert_new(owned("effect__properties"), make_effect_properties_table());
    tables.insert_new(owned("effect__datums"), make_effect_datums_table());
}

/// The table `stats__equipment`.
pub open spec fn stats_equipment_table() -> RawModel {
    fixed_table("equipment"@, seq![("_entry_name"@, "FixedString"@)])
}

fn make_stats_equipment_table() -> (r: RawTableInfo)
    ensures
        r.deep_view() == stats_equipment_table(),
{
    let columns: Vec<(&'static str, &'static str)> = vec![("_entry_name", "FixedString")];
    assert(columns.deep_view() =~= stats_equipment_table().columns);
    table_with("equipment", &columns)
}

/// The tables with the equipment table.
pub open spec fn with_equipment(tables: Seq<(Seq<char>, RawModel)>) -> Seq<(Seq<char>, RawModel)> {
    textmap::with_default(tables, "stats__equipment"@, stats_equipment_table())
}

/// Adds the equipment table, where not there.
pub fn discover_equipment(tables: &mut TextMap<RawTableInfo>)
    ensures
        final(tables).deep_view() == with_equipment(old(tables).deep_view()),
{
    tables.insert_new(owned("stats__equipment"), make_stats_equipment_table());
}

/// The table `valuelist_entries`.
pub open spec fn valuelist_entries_table() -> RawModel {
    fixed_table("valuelist"@, seq![("list_key"@, "FixedString"@), ("value_name"@, "FixedString"@), ("value_index"@, "int32"@)])
}

fn make_valuelist_entries_table() -> (r: RawTableInfo)
    ensures
        r.deep_view() == valuelist_entries_table(),
{
    let columns: Vec<(&'static str, &'static str)> = vec![("list_key", "FixedString"), ("value_name", "FixedString"), ("value_index", "int32")];
    assert(columns.deep_view() =~= valuelist_entries_table().columns);
    table_with("valuelist", &columns)
}

/// The tables with the value list table.
pub open spec fn with_valuelists(tables: Seq<(Seq<char>, RawModel)>) -> Seq<(Seq<char>, RawModel)> {
    textmap::with_default(tables, "valuelist_entries"@, valuelist_entries_table())
}

/// Adds the value list table, where not there.
pub fn discover_valuelists(tables: &mut TextMap<RawTableInfo>)
    ensures
        final(tables).deep_view() == with_valuelists(old(tables).deep_view()),
{
    tables.insert_new(owned("valuelist_entries"), make_valuelist_entries_table());
}

/// The table `modifier_definitions`.
pub open spec fn modifier_definitions_table() -> RawModel {
    fixed_table("modifier"@, seq![("type_name"@, "FixedString"@), ("field_name"@, "FixedString"@), ("field_type"@, "FixedString"@)])
}

fn make_modifier_definitions_table() -> (r: RawTableInfo)
    ensures
        r.deep_view() == modifier_definitions_table(),
{
    let columns: Vec<(&'static str, &'static str)> = vec![("type_name", "FixedString"), ("field_name", "FixedString"), ("field_type", "FixedString")];
    assert(columns.deep_view() =~= modifier_definitions_table().columns);
    table_with("modifier", &columns)
}

/// The tables with the modifier table.
pub open spec fn with_modifiers(tables: Seq<(Seq<char>, RawModel)>) -> Seq<(Seq<char>, RawModel)> {
    textmap::with_default(tables, "modifier_definitions"@, modifier_definitions_table())
}

/// Adds the modifier table, where not there.
pub fn discover_modifiers(tables: &mut TextMap<RawTableInfo>)
    ensures
        final(tables).deep_view() == with_modifiers(old(tables).deep_view()),
{
    tables.insert_new(owned("modifier_definitions"), make_modifier_definitions_table());
}

/// The tables with all tables whose columns do not depend on the files.
pub open spec fn with_fixed(tables: Seq<(Seq<char>, RawModel)>) -> Seq<(Seq<char>, RawModel)> {
    with_modifiers(
        with_valuelists(with_equipment(with_effect(with_allspark(with_loca(tables))))),
    )
}

/// Adds all tables whose columns do not depend on the files.
pub fn discover_fixed(tables: &mut TextMap<RawTableInfo>)
    ensures
        final(tables).deep_view() == with_fixed(old(tables).deep_view()),
{
    discover_loca(tables);
    discover_allspark(tables);
    discover_effect(tables);
    discover_equipment(tables);
    discover_valuelists(tables);
    discover_modifiers(tables);
}

} // verus!
