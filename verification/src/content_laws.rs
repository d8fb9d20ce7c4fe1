//! What holds of the content of files as it goes into a database, and of how the database
//! describes itself.

use vstd::prelude::*;
use crate::batches;
use crate::batches::InsertionModel;
use crate::ddl;
use crate::discovery::RawModel;
use crate::discovery_laws;
use crate::effect_laws;
use crate::files::FileModel;
use crate::fixed_tables;
use crate::insert;
use crate::loca::LocaModel;
use crate::parsed::ContentModel;
use crate::partition;
use crate::pipeline;
use crate::pipeline::{GatheredModel, JobModel, LocaOutcomeModel, PakOutcomeModel};
use crate::row_fill;
use crate::row_laws;
use crate::rows::PlanModel;
use crate::schema::{PkStrategy, SchemaModel, TableModel};
use crate::staging;
use crate::staging::SectionCounts;
use crate::stats_lists::EquipmentModel;
use crate::stats_parse::StatsModel;
use crate::text;
use crate::textmap;
use crate::types::SqlModel;

verus! {

// ---------------------------------------------------------------------------
// Content
// ---------------------------------------------------------------------------

/// Whether a row of these values is inserted into a table by its plan.
pub open spec fn is_inserted(
    list: Seq<InsertionModel>,
    table: Seq<char>,
    plan: PlanModel,
    values: Seq<SqlModel>,
) -> bool {
    exists|i: int|
        {
            &&& 0 <= i < list.len()
            &&& (#[trigger] list[i]).table == table
            &&& list[i].offered == 1
            &&& list[i].statement.sql == plan.sql
            &&& list[i].statement.params == values
        }
}

proof fn lemma_entry_inserted(
    entries: Seq<StatsModel>,
    file_id: i64,
    source_id: i64,
    plans: Seq<(Seq<char>, PlanModel)>,
    schema: SchemaModel,
    i: int,
)
    requires
        0 <= i < entries.len(),
        textmap::has_key(plans, entries[i].table_name),
    ensures
        ({
            let plan = textmap::value_of(plans, entries[i].table_name)->0;
            is_inserted(
                batches::entry_insertions(entries, file_id, source_id, plans, schema),
                entries[i].table_name,
                plan,
                row_fill::stats_row(
                    plan,
                    insert::table_sources(schema, entries[i].table_name),
                    entries[i],
                    file_id,
                    source_id,
                ),
            )
        }),
    decreases entries.len(),
{
    let d = entries.drop_last();
    let e = entries[i];
    let plan = textmap::value_of(plans, e.table_name)->0;
    let values = row_fill::stats_row(
        plan,
        insert::table_sources(schema, e.table_name),
        e,
        file_id,
        source_id,
    );
    let before = batches::entry_insertions(d, file_id, source_id, plans, schema);
    let r = batches::entry_insertions(entries, file_id, source_id, plans, schema);
    if i < d.len() {
        assert(d[i] == e);
        lemma_entry_inserted(d, file_id, source_id, plans, schema, i);
        let k = choose|k: int|
            {
                &&& 0 <= k < before.len()
                &&& (#[trigger] before[k]).table == e.table_name
                &&& before[k].offered == 1
                &&& before[k].statement.sql == plan.sql
                &&& before[k].statement.params == values
            };
        assert(r[k] == before[k]);
    } else {
        assert(r[r.len() - 1].table == e.table_name);
    }
}

/// Every entry of a stats file whose table has a plan is inserted, and a text that is kept
/// as it stands goes to the table for such texts.
pub proof fn law_stats_content_is_inserted(
    entries: Seq<StatsModel>,
    last_type: Option<Seq<char>>,
    raw_content: Option<Seq<char>>,
    file_id: i64,
    source_id: i64,
    plans: Seq<(Seq<char>, PlanModel)>,
    schema: SchemaModel,
    i: int,
)
    ensures
        ({
            let content = ContentModel::Stats { entries, last_type, raw_content };
            let list = batches::content_insertions(content, file_id, source_id, plans, schema);
            &&& 0 <= i < entries.len() ==> (textmap::value_of(
                plans,
                entries[i].table_name,
            ) matches Some(plan) ==> is_inserted(
                list,
                entries[i].table_name,
                plan,
                row_fill::stats_row(
                    plan,
                    insert::table_sources(schema, entries[i].table_name),
                    entries[i],
                    file_id,
                    source_id,
                ),
            ))
            &&& raw_content matches Some(s) ==> (textmap::has_key(schema.tables, "txt__raw"@)
                ==> list.len() > 0 && list[list.len() - 1].table == "txt__raw"@ && list[list.len()
                - 1].statement.params == seq![SqlModel::Integer(file_id as int), SqlModel::Text(s)])
            &&& batches::region_of(content) == last_type
        }),
{
    let rows = batches::entry_insertions(entries, file_id, source_id, plans, schema);
    let content = ContentModel::Stats { entries, last_type, raw_content };
    let list = batches::content_insertions(content, file_id, source_id, plans, schema);
    assert(forall|k: int| 0 <= k < rows.len() ==> list[k] == #[trigger] rows[k]);
    if 0 <= i < entries.len() && textmap::has_key(plans, entries[i].table_name) {
        let e = entries[i];
        let plan = textmap::value_of(plans, e.table_name)->0;
        let values = row_fill::stats_row(
            plan,
            insert::table_sources(schema, e.table_name),
            e,
            file_id,
            source_id,
        );
        lemma_entry_inserted(entries, file_id, source_id, plans, schema, i);
        let k = choose|k: int|
            {
                &&& 0 <= k < rows.len()
                &&& (#[trigger] rows[k]).table == e.table_name
                &&& rows[k].offered == 1
                &&& rows[k].statement.sql == plan.sql
                &&& rows[k].statement.params == values
            };
        assert(list[k] == rows[k]);
    }
}

/// The row of a file has its number, its path, its kind, its module and its size; once its
/// content is in, its region and the number of its rows.
pub proof fn law_file_row_tells_file(
    file: FileModel,
    file_id: i64,
    mod_name: Seq<char>,
    size: u64,
    region_id: Option<Seq<char>>,
    rows: u64,
)
    ensures
        batches::file_row(file, file_id, mod_name, size).params == seq![
            SqlModel::Integer(file_id as int),
            SqlModel::Text(file.rel_path),
            SqlModel::Text(file.file_type.label()),
            SqlModel::Text(mod_name),
            SqlModel::Integer(size as i64 as int),
        ],
        batches::file_done(region_id, rows, file_id).params == seq![
            effect_laws::stored(region_id),
            SqlModel::Integer(rows as i64 as int),
            SqlModel::Integer(file_id as int),
        ],
{
}

proof fn lemma_key_found(
    attrs: Seq<(Seq<char>, Seq<char>, Seq<char>)>,
    column: Seq<char>,
    i: int,
)
    requires
        0 <= i < attrs.len(),
        text::ascii_lowered(attrs[i].0) == text::ascii_lowered(column),
        forall|j: int|
            0 <= j < i ==> text::ascii_lowered((#[trigger] attrs[j]).0) != text::ascii_lowered(
                column,
            ),
    ensures
        insert::found_key(attrs, column) == Some(attrs[i].2),
    decreases i,
{
    if i > 0 {
        assert(attrs[0].0 == attrs[0].0);
        let d = attrs.drop_first();
        assert(d[i - 1] == attrs[i]);
        assert forall|j: int| 0 <= j < i - 1 implies text::ascii_lowered((#[trigger] d[j]).0)
            != text::ascii_lowered(column) by {
            assert(d[j] == attrs[j + 1]);
        }
        lemma_key_found(d, column, i - 1);
    }
}

proof fn lemma_no_key(attrs: Seq<(Seq<char>, Seq<char>, Seq<char>)>, column: Seq<char>)
    requires
        forall|j: int|
            0 <= j < attrs.len() ==> text::ascii_lowered((#[trigger] attrs[j]).0)
                != text::ascii_lowered(column),
    ensures
        insert::found_key(attrs, column) is None,
    decreases attrs.len(),
{
    if attrs.len() > 0 {
        assert(attrs[0].0 == attrs[0].0);
        let d = attrs.drop_first();
        assert forall|j: int| 0 <= j < d.len() implies text::ascii_lowered((#[trigger] d[j]).0)
            != text::ascii_lowered(column) by {
            assert(d[j] == attrs[j + 1]);
        }
        lemma_no_key(d, column);
    }
}

/// The key of a node is the first value that its attributes give for the key of the table;
/// a node without one gets a made key.
pub proof fn law_node_key_is_given(
    t: TableModel,
    attrs: Seq<(Seq<char>, Seq<char>, Seq<char>)>,
    next_key: u64,
    i: int,
)
    requires
        t.pk_strategy != PkStrategy::Rowid,
    ensures
        ({
            let key = text::ascii_lowered(t.pk_strategy.key_column());
            &&& 0 <= i < attrs.len() && text::ascii_lowered(attrs[i].0) == key && (forall|j: int|
                0 <= j < i ==> text::ascii_lowered((#[trigger] attrs[j]).0) != key)
                ==> insert::node_key(t, attrs, next_key) == Some(attrs[i].2)
            &&& (forall|j: int|
                0 <= j < attrs.len() ==> text::ascii_lowered((#[trigger] attrs[j]).0) != key)
                ==> insert::node_key(t, attrs, next_key) == Some(
                "_row_id_"@ + text::decimal(next_key as nat),
            )
        }),
{
    let column = t.pk_strategy.key_column();
    let key = text::ascii_lowered(column);
    if 0 <= i < attrs.len() && text::ascii_lowered(attrs[i].0) == key && (forall|j: int|
        0 <= j < i ==> text::ascii_lowered((#[trigger] attrs[j]).0) != key) {
        lemma_key_found(attrs, column, i);
    }
    if forall|j: int|
        0 <= j < attrs.len() ==> text::ascii_lowered((#[trigger] attrs[j]).0) != key {
        lemma_no_key(attrs, column);
    }
}

// ---------------------------------------------------------------------------
// Descriptions
// ---------------------------------------------------------------------------

/// A table is described by its name, its kind of source, its region, its node, its parents
/// and the number of its rows: the noted one where any are noted, and the counted one
/// elsewhere. A junction is described by the tables that it links, and its rows are always
/// counted.
pub proof fn law_tables_are_described(
    schema: SchemaModel,
    noted: Seq<(Seq<char>, u64)>,
    counted: Seq<(Seq<char>, u64)>,
    i: int,
)
    ensures
        ({
            let all = ddl::meta_statements(schema, noted, counted);
            let n = schema.tables.len() as int;
            &&& all.len() == n + schema.junction_tables.len()
            &&& 0 <= i < n ==> {
                let t = schema.tables[i];
                &&& all[i].params == seq![
                    SqlModel::Text(t.0),
                    SqlModel::Text(t.1.source_type),
                    effect_laws::stored(t.1.region_id),
                    effect_laws::stored(t.1.node_id),
                    effect_laws::stored(ddl::parent_list(t.1.parent_tables)),
                    SqlModel::Integer(
                        number_of(
                            if noted.len() > 0 {
                                noted
                            } else {
                                counted
                            },
                            t.0,
                        ),
                    ),
                ]
                &&& t.1.parent_tables.len() == 0 ==> ddl::parent_list(t.1.parent_tables) is None
                &&& t.1.parent_tables.len() == 1 ==> ddl::parent_list(t.1.parent_tables) is Some
            }
            &&& 0 <= i < schema.junction_tables.len() ==> {
                let j = schema.junction_tables[i];
                all[n + i].params == seq![
                    SqlModel::Text(j.table_name),
                    SqlModel::Text("junction"@),
                    SqlModel::Null,
                    SqlModel::Null,
                    SqlModel::Text(j.parent_table + ","@ + j.child_table),
                    SqlModel::Integer(number_of(counted, j.table_name)),
                ]
            }
        }),
{
}

/// The number of rows that counts give for a table, as far as the database can hold it.
pub open spec fn number_of(counts: Seq<(Seq<char>, u64)>, table: Seq<char>) -> int {
    match textmap::value_of(counts, table) {
        Some(n) => if n <= i64::MAX {
            n as int
        } else {
            i64::MAX as int
        },
        None => 0,
    }
}

/// Whether every table of a map stands in another, as it was.
pub open spec fn keeps(a: Seq<(Seq<char>, RawModel)>, b: Seq<(Seq<char>, RawModel)>) -> bool {
    forall|k: Seq<char>| #[trigger]
        textmap::has_key(a, k) ==> textmap::value_of(b, k) == textmap::value_of(a, k)
}

proof fn lemma_put(tables: Seq<(Seq<char>, RawModel)>, name: Seq<char>, t: RawModel)
    ensures
        keeps(tables, textmap::with_default(tables, name, t)),
        textmap::has_key(textmap::with_default(tables, name, t), name),
{
    let r = textmap::with_default(tables, name, t);
    if !textmap::has_key(tables, name) {
        assert(r == textmap::with_value(tables, name, t));
        discovery_laws::lemma_set(tables, name, t, name);
        assert forall|k: Seq<char>| #[trigger] textmap::has_key(tables, k) implies textmap::value_of(
            r,
            k,
        ) == textmap::value_of(tables, k) by {
            discovery_laws::lemma_set(tables, name, t, k);
        }
    }
}

proof fn lemma_keeps_both(
    a: Seq<(Seq<char>, RawModel)>,
    b: Seq<(Seq<char>, RawModel)>,
    c: Seq<(Seq<char>, RawModel)>,
)
    requires
        keeps(a, b),
        keeps(b, c),
    ensures
        keeps(a, c),
{
    assert forall|k: Seq<char>| #[trigger] textmap::has_key(a, k) implies textmap::value_of(c, k)
        == textmap::value_of(a, k) by {
        assert(textmap::value_of(b, k) == textmap::value_of(a, k));
        assert(textmap::has_key(b, k));
    }
}

proof fn lemma_put_next(
    all: Seq<(Seq<char>, RawModel)>,
    tables: Seq<(Seq<char>, RawModel)>,
    name: Seq<char>,
    t: RawModel,
)
    requires
        keeps(all, tables),
    ensures
        keeps(all, textmap::with_default(tables, name, t)),
        keeps(tables, textmap::with_default(tables, name, t)),
        textmap::has_key(textmap::with_default(tables, name, t), name),
{
    lemma_put(tables, name, t);
    lemma_keeps_both(all, tables, textmap::with_default(tables, name, t));
}

/// The tables that do not depend on files are there beside those that were seen, which
/// stay as they were.
pub proof fn law_fixed_tables_are_there(tables: Seq<(Seq<char>, RawModel)>)
    ensures
        ({
            let r = fixed_tables::with_fixed(tables);
            &&& keeps(tables, r)
            &&& textmap::has_key(r, "loca__english"@)
            &&& textmap::has_key(r, "allspark__components"@)
            &&& textmap::has_key(r, "allspark__properties"@)
            &&& textmap::has_key(r, "allspark__property_groups"@)
            &&& textmap::has_key(r, "allspark__property_group_refs"@)
            &&& textmap::has_key(r, "allspark__modules"@)
            &&& textmap::has_key(r, "allspark__module_properties"@)
            &&& textmap::has_key(r, "effect__effects"@)
            &&& textmap::has_key(r, "effect__components"@)
            &&& textmap::has_key(r, "effect__properties"@)
            &&& textmap::has_key(r, "effect__datums"@)
            &&& textmap::has_key(r, "stats__equipment"@)
            &&& textmap::has_key(r, "valuelist_entries"@)
            &&& textmap::has_key(r, "modifier_definitions"@)
        }),
{
    let a = fixed_tables::with_loca(tables);
    lemma_put(tables, "loca__english"@, fixed_tables::loca_english_table());
    lemma_definitions(a);
    let b = fixed_tables::with_allspark(a);
    lemma_effects(b);
    let c = fixed_tables::with_effect(b);
    lemma_put(c, "stats__equipment"@, fixed_tables::stats_equipment_table());
    let d = fixed_tables::with_equipment(c);
    lemma_put(d, "valuelist_entries"@, fixed_tables::valuelist_entries_table());
    let e = fixed_tables::with_valuelists(d);
    lemma_put(e, "modifier_definitions"@, fixed_tables::modifier_definitions_table());
    let f = fixed_tables::with_modifiers(e);
    lemma_keeps_both(d, e, f);
    lemma_keeps_both(c, d, f);
    lemma_keeps_both(b, c, f);
    lemma_keeps_both(a, b, f);
    lemma_keeps_both(tables, a, f);
}

proof fn lemma_definitions(m: Seq<(Seq<char>, RawModel)>)
    ensures
        ({
            let r = fixed_tables::with_allspark(m);
            &&& keeps(m, r)
            &&& textmap::has_key(r, "allspark__components"@)
            &&& textmap::has_key(r, "allspark__properties"@)
            &&& textmap::has_key(r, "allspark__property_groups"@)
            &&& textmap::has_key(r, "allspark__property_group_refs"@)
            &&& textmap::has_key(r, "allspark__modules"@)
            &&& textmap::has_key(r, "allspark__module_properties"@)
        }),
{
    let n1 = "allspark__components"@;
    let t1 = fixed_tables::allspark_components_table();
    let a = textmap::with_default(m, n1, t1);
    lemma_put(m, n1, t1);
    let n2 = "allspark__properties"@;
    let t2 = fixed_tables::allspark_properties_table();
    let b = textmap::with_default(a, n2, t2);
    lemma_put_next(m, a, n2, t2);
    let n3 = "allspark__property_groups"@;
    let t3 = fixed_tables::allspark_property_groups_table();
    let c = textmap::with_default(b, n3, t3);
    lemma_put_next(m, b, n3, t3);
    let n4 = "allspark__property_group_refs"@;
    let t4 = fixed_tables::allspark_property_group_refs_table();
    let d = textmap::with_default(c, n4, t4);
    lemma_put_next(m, c, n4, t4);
    let n5 = "allspark__modules"@;
    let t5 = fixed_tables::allspark_modules_table();
    let e = textmap::with_default(d, n5, t5);
    lemma_put_next(m, d, n5, t5);
    let n6 = "allspark__module_properties"@;
    let t6 = fixed_tables::allspark_module_properties_table();
    let f = textmap::with_default(e, n6, t6);
    lemma_put_next(m, e, n6, t6);
    lemma_keeps_both(d, e, f);
    lemma_keeps_both(c, d, f);
    lemma_keeps_both(b, c, f);
    lemma_keeps_both(a, b, f);
}

proof fn lemma_effects(m: Seq<(Seq<char>, RawModel)>)
    ensures
        ({
            let r = fixed_tables::with_effect(m);
            &&& keeps(m, r)
            &&& textmap::has_key(r, "effect__effects"@)
            &&& textmap::has_key(r, "effect__components"@)
            &&& textmap::has_key(r, "effect__properties"@)
            &&& textmap::has_key(r, "effect__datums"@)
        }),
{
    let n1 = "effect__effects"@;
    let t1 = fixed_tables::effect_effects_table();
    let a = textmap::with_default(m, n1, t1);
    lemma_put(m, n1, t1);
    let n2 = "effect__components"@;
    let t2 = fixed_tables::effect_components_table();
    let b = textmap::with_default(a, n2, t2);
    lemma_put_next(m, a, n2, t2);
    let n3 = "effect__properties"@;
    let t3 = fixed_tables::effect_properties_table();
    let c = textmap::with_default(b, n3, t3);
    lemma_put_next(m, b, n3, t3);
    let n4 = "effect__datums"@;
    let t4 = fixed_tables::effect_datums_table();
    let d = textmap::with_default(c, n4, t4);
    lemma_put_next(m, c, n4, t4);
    lemma_keeps_both(b, c, d);
    lemma_keeps_both(a, b, d);
}

// ---------------------------------------------------------------------------
// Staging tables and packages
// ---------------------------------------------------------------------------

/// A name means the table of that name, or else the one that was found by region, and
/// nothing where neither is known.
pub proof fn law_staging_name_is_resolved(
    schema: SchemaModel,
    table: Seq<char>,
    by_region: Option<Seq<char>>,
)
    ensures
        ({
            let r = staging::resolved_table(schema, table, by_region);
            let known = textmap::has_key(schema.tables, table);
            &&& known ==> r == Ok::<Seq<char>, Seq<char>>(table)
            &&& !known && by_region is Some && textmap::has_key(schema.tables, by_region->0) ==> r
                == Ok::<Seq<char>, Seq<char>>(by_region->0)
            &&& r matches Ok(t) ==> textmap::has_key(schema.tables, t) && (t == table || by_region
                == Some(t))
            &&& r is Ok <==> known || (by_region is Some && textmap::has_key(
                schema.tables,
                by_region->0,
            ))
        }),
{
}

/// A table is looked for by the region in its name: of the kind of source that the name
/// implies first, and then of any.
pub proof fn law_regions_are_looked_for(table: Seq<char>, region: Seq<char>, i: int)
    ensures
        ({
            let all = staging::region_lookups("lsx__"@ + region);
            &&& all.len() == 4
            &&& 0 <= i < 2 ==> all[i].params == seq![SqlModel::Text(region), SqlModel::Text("lsx"@)]
            &&& 2 <= i < 4 ==> all[i].params == seq![SqlModel::Text(region)]
        }),
        !"lsx__"@.is_prefix_of(table) && !"stats__"@.is_prefix_of(table) ==> {
            let all = staging::region_lookups(table);
            &&& all.len() == 2
            &&& 0 <= i < 2 ==> all[i].params == seq![SqlModel::Text(table)]
        },
{
    let w = "lsx__"@;
    let s = w + region;
    assert(w =~= s.subrange(0, w.len() as int));
    assert(s.skip(w.len() as int) =~= region);
}

/// The localization adds its files to what was gathered; one that cannot be read is an
/// error, and one that is missing is none.
pub proof fn law_localization_is_gathered(g: GatheredModel, outcome: LocaOutcomeModel)
    ensures
        ({
            let r = pipeline::with_loca(g, outcome);
            match outcome {
                LocaOutcomeModel::NoPak => r.files == g.files && r.errors == g.errors
                    && r.paks_extracted == g.paks_extracted && r.files_extracted
                    == g.files_extracted && r.loca_converted == g.loca_converted,
                LocaOutcomeModel::Loaded { path, files, note } => r.files == g.files + files
                    && r.errors == g.errors && r.paks_extracted == g.paks_extracted + 1
                    && r.files_extracted == g.files_extracted + files.len() && r.loca_converted
                    == files.len(),
                LocaOutcomeModel::Failed { path, error } => r.files == g.files && r.errors.len()
                    == g.errors.len() + 1 && r.paks_extracted == g.paks_extracted
                    && r.files_extracted == g.files_extracted,
            }
        }),
{
}

/// The files of packages are collected with those of the localization, unless the packages
/// cannot be collected or the localization cannot be read.
pub proof fn law_localization_is_collected(
    jobs: Seq<JobModel>,
    outcomes: Seq<PakOutcomeModel>,
    loca: LocaOutcomeModel,
)
    ensures
        ({
            let paks = pipeline::collected(jobs, outcomes);
            let r = pipeline::collected_all(jobs, outcomes, loca);
            &&& r is Ok <==> paks is Ok && loca !is Failed
            &&& r matches Ok(c) ==> match loca {
                LocaOutcomeModel::Loaded { path, files, note } => c.0 == (paks->Ok_0).0 + files,
                _ => c.0 == (paks->Ok_0).0,
            }
            &&& paks is Err ==> r == paks
        }),
{
}

/// The row of a localized text has its handle, its file, its version and its text.
pub proof fn law_text_row_tells_text(e: LocaModel, file_id: i64)
    ensures
        insert::loca_statement(e, file_id).params == seq![
            SqlModel::Text(e.contentuid),
            SqlModel::Integer(file_id as int),
            SqlModel::Integer(e.version as int),
            effect_laws::stored(e.text),
        ],
{
}

/// Every equipment set is inserted under its name, with its file and its source, where
/// there is a plan for equipment.
pub proof fn law_equipment_is_inserted(
    entries: Seq<EquipmentModel>,
    file_id: i64,
    source_id: i64,
    plans: Seq<(Seq<char>, PlanModel)>,
    schema: SchemaModel,
    i: int,
)
    requires
        0 <= i < entries.len(),
        textmap::value_of(plans, "stats__equipment"@) matches Some(plan)
            && row_laws::places_apart(plan),
    ensures
        ({
            let list = batches::content_insertions(
                ContentModel::Equipment { entries },
                file_id,
                source_id,
                plans,
                schema,
            );
            let plan = textmap::value_of(plans, "stats__equipment"@)->0;
            let row = list[i].statement.params;
            &&& list.len() == entries.len()
            &&& list[i].table == "stats__equipment"@
            &&& list[i].statement.sql == plan.sql
            &&& row.len() == plan.width
            &&& row[plan.file_id_idx as int] == SqlModel::Integer(file_id as int)
            &&& plan.source_id_idx matches Some(s) ==> row[s as int] == SqlModel::Integer(
                source_id as int,
            )
            &&& plan.pk_idx matches Some(k) ==> row[k as int] == SqlModel::Text(entries[i].name)
        }),
{
}

/// Modules are numbered from one on, in order.
pub proof fn law_sources_are_numbered(names: Seq<Seq<char>>, i: int)
    requires
        0 <= i < names.len() < i64::MAX,
    ensures
        partition::source_rows(names).len() == names.len(),
        partition::source_rows(names)[i].params == seq![
            SqlModel::Integer(i + 1),
            SqlModel::Text(names[i]),
        ],
{
}

/// The summary of a table tells what the schema says of it, and the numbers of its rows; a
/// sum over no rows counts as zero.
pub proof fn law_summary_tells_table(table: Seq<char>, t: TableModel, c: SectionCounts)
    requires
        0 <= c.total <= 0xffff_ffff,
        c.active matches Some(n) ==> 0 <= n <= 0xffff_ffff,
        c.new matches Some(n) ==> 0 <= n <= 0xffff_ffff,
        c.modified matches Some(n) ==> 0 <= n <= 0xffff_ffff,
        c.deleted matches Some(n) ==> 0 <= n <= 0xffff_ffff,
    ensures
        ({
            let s = staging::summary_of(table, t, c);
            &&& s.table_name == table
            &&& s.region_id == t.region_id
            &&& s.node_id == t.node_id
            &&& s.source_type == t.source_type
            &&& s.total_rows == c.total
            &&& s.active_rows == or_zero(c.active)
            &&& s.new_rows == or_zero(c.new)
            &&& s.modified_rows == or_zero(c.modified)
            &&& s.deleted_rows == or_zero(c.deleted)
        }),
{
}

/// A number, or zero where there is none.
pub open spec fn or_zero(n: Option<i64>) -> int {
    match n {
        Some(k) => k as int,
        None => 0,
    }
}

} // verus!
