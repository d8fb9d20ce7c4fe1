//! What holds of every schema that is made from files.

use vstd::prelude::*;
use crate::discovery;
use crate::discovery::{DiscoveryModel, RawModel};
use crate::fixed_tables;
use crate::fk_patterns::FkRule;
use crate::order;
use crate::references;
use crate::references::Names;
use crate::schema::{ColumnDef, ColumnModel, FkModel, JunctionDef, JunctionModel, PkStrategy, TableModel};
use crate::schema_build;
use crate::text;
use crate::textmap;
use crate::tree_insert;

verus! {

// ---------------------------------------------------------------------------
// Names of tables
// ---------------------------------------------------------------------------

/// Whether no table stands twice, and the localization table is there.
pub open spec fn sound_tables<T>(tables: Seq<(Seq<char>, T)>) -> bool {
    textmap::distinct(tables) && textmap::has_key(tables, "loca__english"@)
}

proof fn lemma_default_distinct<T>(m: Seq<(Seq<char>, T)>, k: Seq<char>, v: T, other: Seq<char>)
    requires
        textmap::distinct(m),
    ensures
        textmap::distinct(textmap::with_default(m, k, v)),
        textmap::has_key(m, other) ==> textmap::has_key(textmap::with_default(m, k, v), other),
        textmap::has_key(textmap::with_default(m, k, v), k),
{
    let n = textmap::with_default(m, k, v);
    textmap::lemma_key_pos(m, k);
    textmap::lemma_key_pos(m, other);
    textmap::lemma_key_pos(n, k);
    textmap::lemma_key_pos(n, other);
    if !textmap::has_key(m, k) {
        assert(n[m.len() as int].0 == k);
        if textmap::has_key(m, other) {
            let i = textmap::key_pos(m, other)->0;
            assert(n[i].0 == other);
        }
    }
}

proof fn lemma_value_sound<T>(m: Seq<(Seq<char>, T)>, k: Seq<char>, v: T)
    requires
        sound_tables(m),
    ensures
        sound_tables(textmap::with_value(m, k, v)),
{
    textmap::law_with_value(m, k, v, "loca__english"@);
}

proof fn lemma_without_sound<T>(m: Seq<(Seq<char>, T)>, k: Seq<char>)
    requires
        sound_tables(m),
        k != "loca__english"@,
    ensures
        sound_tables(textmap::without_key(m, k)),
{
    let name = "loca__english"@;
    let n = textmap::without_key(m, k);
    textmap::lemma_key_pos(m, k);
    textmap::lemma_key_pos(m, name);
    textmap::lemma_key_pos(n, name);
    match textmap::key_pos(m, k) {
        Some(i) => {
            let at = textmap::key_pos(m, name)->0;
            if at < i {
                assert(n[at].0 == name);
            } else {
                assert(n[at - 1] == m[at]);
                assert(n[at - 1].0 == name);
            }
            assert forall|a: int, b: int| 0 <= a < b < n.len() implies #[trigger] n[a].0
                != #[trigger] n[b].0 by {
                let x = if a < i {
                    a
                } else {
                    a + 1
                };
                let y = if b < i {
                    b
                } else {
                    b + 1
                };
                assert(n[a] == m[x] && n[b] == m[y]);
                assert(m[x].0 != m[y].0);
            }
        },
        None => {},
    }
}

/// Where two maps have the same keys, they have them in the same places.
pub proof fn lemma_same_keys<A, B>(a: Seq<(Seq<char>, A)>, b: Seq<(Seq<char>, B)>, k: Seq<char>)
    requires
        a.len() == b.len(),
        forall|i: int| 0 <= i < a.len() ==> (#[trigger] a[i]).0 == b[i].0,
    ensures
        textmap::key_pos(a, k) == textmap::key_pos(b, k),
        textmap::distinct(a) ==> textmap::distinct(b),
    decreases a.len(),
{
    if a.len() > 0 {
        let c = a.drop_last();
        let d = b.drop_last();
        assert forall|i: int| 0 <= i < c.len() implies (#[trigger] c[i]).0 == d[i].0 by {
            assert(c[i] == a[i]);
        }
        lemma_same_keys(c, d, k);
        assert(a[a.len() - 1].0 == b[a.len() - 1].0);
    }
    if textmap::distinct(a) {
        assert forall|i: int, j: int| 0 <= i < j < b.len() implies #[trigger] b[i].0
            != #[trigger] b[j].0 by {
            assert(a[i].0 == b[i].0 && a[j].0 == b[j].0);
        }
    }
}

proof fn lemma_fixed_sound()
    ensures
        sound_tables(fixed_tables::with_fixed(Seq::empty())),
{
    let loca = "loca__english"@;
    let none = Seq::<(Seq<char>, RawModel)>::empty();
    let t0 = fixed_tables::with_loca(none);
    lemma_default_distinct(none, loca, fixed_tables::loca_english_table(), loca);
    let t1 = textmap::with_default(
        t0,
        "allspark__components"@,
        fixed_tables::allspark_components_table(),
    );
    lemma_default_distinct(
        t0,
        "allspark__components"@,
        fixed_tables::allspark_components_table(),
        loca,
    );
    let t2 = textmap::with_default(
        t1,
        "allspark__properties"@,
        fixed_tables::allspark_properties_table(),
    );
    lemma_default_distinct(
        t1,
        "allspark__properties"@,
        fixed_tables::allspark_properties_table(),
        loca,
    );
    let t3 = textmap::with_default(
        t2,
        "allspark__property_groups"@,
        fixed_tables::allspark_property_groups_table(),
    );
    lemma_default_distinct(
        t2,
        "allspark__property_groups"@,
        fixed_tables::allspark_property_groups_table(),
        loca,
    );
    let t4 = textmap::with_default(
        t3,
        "allspark__property_group_refs"@,
        fixed_tables::allspark_property_group_refs_table(),
    );
    lemma_default_distinct(
        t3,
        "allspark__property_group_refs"@,
        fixed_tables::allspark_property_group_refs_table(),
        loca,
    );
    let t5 = textmap::with_default(
        t4,
        "allspark__modules"@,
        fixed_tables::allspark_modules_table(),
    );
    lemma_default_distinct(
        t4,
        "allspark__modules"@,
        fixed_tables::allspark_modules_table(),
        loca,
    );
    let t6 = fixed_tables::with_allspark(t0);
    lemma_default_distinct(
        t5,
        "allspark__module_properties"@,
        fixed_tables::allspark_module_properties_table(),
        loca,
    );
    let e1 = textmap::with_default(
        t6,
        "effect__effects"@,
        fixed_tables::effect_effects_table(),
    );
    lemma_default_distinct(t6, "effect__effects"@, fixed_tables::effect_effects_table(), loca);
    let e2 = textmap::with_default(
        e1,
        "effect__components"@,
        fixed_tables::effect_components_table(),
    );
    lemma_default_distinct(
        e1,
        "effect__components"@,
        fixed_tables::effect_components_table(),
        loca,
    );
    let e3 = textmap::with_default(
        e2,
        "effect__properties"@,
        fixed_tables::effect_properties_table(),
    );
    lemma_default_distinct(
        e2,
        "effect__properties"@,
        fixed_tables::effect_properties_table(),
        loca,
    );
    let e4 = fixed_tables::with_effect(t6);
    lemma_default_distinct(e3, "effect__datums"@, fixed_tables::effect_datums_table(), loca);
    let q = fixed_tables::with_equipment(e4);
    lemma_default_distinct(e4, "stats__equipment"@, fixed_tables::stats_equipment_table(), loca);
    let v = fixed_tables::with_valuelists(q);
    lemma_default_distinct(q, "valuelist_entries"@, fixed_tables::valuelist_entries_table(), loca);
    lemma_default_distinct(
        v,
        "modifier_definitions"@,
        fixed_tables::modifier_definitions_table(),
        loca,
    );
}

proof fn lemma_merged_sound(
    tables: Seq<(Seq<char>, RawModel)>,
    more: Seq<(Seq<char>, RawModel)>,
)
    requires
        sound_tables(tables),
    ensures
        sound_tables(discovery::with_tables(tables, more)),
    decreases more.len(),
{
    if more.len() > 0 {
        lemma_merged_sound(tables, more.drop_last());
        let before = discovery::with_tables(tables, more.drop_last());
        let base = match textmap::value_of(before, more.last().0) {
            Some(t) => t,
            None => discovery::blank_table(more.last().1.source_type),
        };
        lemma_value_sound(before, more.last().0, discovery::merged_table(base, more.last().1));
    }
}

proof fn lemma_seen_sound(files: Seq<DiscoveryModel>)
    ensures
        sound_tables(schema_build::all_seen(files).tables),
    decreases files.len(),
{
    if files.len() == 0 {
        lemma_fixed_sound();
    } else {
        lemma_seen_sound(files.drop_last());
        lemma_merged_sound(
            schema_build::all_seen(files.drop_last()).tables,
            files.last().tables,
        );
    }
}

proof fn lemma_consolidated_sound(
    tables: Seq<(Seq<char>, RawModel)>,
    regions: Seq<(Seq<char>, Seq<Seq<char>>)>,
)
    requires
        sound_tables(tables),
    ensures
        sound_tables(schema_build::consolidated_tables(tables, regions).tables),
    decreases regions.len(),
{
    if regions.len() > 0 {
        lemma_consolidated_sound(tables, regions.drop_last());
        let st = schema_build::consolidated_tables(tables, regions.drop_last());
        let p = regions.last();
        let old_name = discovery::node_table(p.0, p.1[0]);
        let new_name = schema_build::region_table(p.0);
        let info = textmap::value_of(st.tables, old_name);
        reveal_strlit("lsx__");
        reveal_strlit("loca__english");
        assert(old_name[1] == "lsx__"@[1]);
        assert("loca__english"@[1] == 'o');
        lemma_without_sound(st.tables, old_name);
        if info is Some {
            lemma_value_sound(
                textmap::without_key(st.tables, old_name),
                new_name,
                RawModel { region_id: Some(p.0), node_id: Some(p.1[0]), ..info->0 },
            );
        }
    }
}

proof fn lemma_names_sound(d: DiscoveryModel)
    requires
        sound_tables(d.tables),
    ensures
        sound_tables(schema_build::final_names(d).tables),
{
    lemma_consolidated_sound(d.tables, d.regions);
    let c = schema_build::consolidated_tables(d.tables, d.regions);
    lemma_same_keys(c.tables, schema_build::final_names(d).tables, "loca__english"@);
}

// ---------------------------------------------------------------------------
// References
// ---------------------------------------------------------------------------

/// Whether every reference leads to a table.
pub open spec fn all_lead<T>(fks: Seq<FkModel>, tables: Seq<(Seq<char>, T)>) -> bool {
    forall|i: int|
        0 <= i < fks.len() ==> textmap::has_key(tables, (#[trigger] fks[i]).target_table)
}

proof fn lemma_specific_lead(table: Seq<char>, columns: Seq<(Seq<char>, Seq<char>)>, names: Names)
    ensures
        all_lead(references::specific_refs(table, columns, names), names.tables),
    decreases columns.len(),
{
    if columns.len() > 0 {
        lemma_specific_lead(table, columns.drop_last(), names);
    }
}

proof fn lemma_patterned_lead(
    table: Seq<char>,
    columns: Seq<(Seq<char>, Seq<char>)>,
    rules: Seq<Option<FkRule>>,
    names: Names,
    so_far: Seq<FkModel>,
)
    requires
        all_lead(so_far, names.tables),
        textmap::has_key(names.tables, table),
    ensures
        all_lead(references::pattern_refs(table, columns, rules, names, so_far), names.tables),
    decreases columns.len(),
{
    if columns.len() > 0 {
        lemma_patterned_lead(table, columns.drop_last(), rules, names, so_far);
    }
}

proof fn lemma_localized_lead(
    columns: Seq<(Seq<char>, Seq<char>)>,
    names: Names,
    so_far: Seq<FkModel>,
)
    requires
        all_lead(so_far, names.tables),
        textmap::has_key(names.tables, "loca__english"@),
    ensures
        all_lead(references::localized_refs(columns, names, so_far), names.tables),
        all_lead(references::stats_loca_refs(columns, names, so_far), names.tables),
    decreases columns.len(),
{
    if columns.len() > 0 {
        lemma_localized_lead(columns.drop_last(), names, so_far);
    }
}

proof fn lemma_references_lead(
    table: Seq<char>,
    columns: Seq<(Seq<char>, Seq<char>)>,
    node_id: Option<Seq<char>>,
    names: Names,
)
    requires
        textmap::has_key(names.tables, table),
        textmap::has_key(names.tables, "loca__english"@),
    ensures
        all_lead(
            references::references(
                table,
                columns,
                node_id,
                references::column_rules(columns),
                names,
            ),
            names.tables,
        ),
{
    let rules = references::column_rules(columns);
    let specific = references::specific_refs(table, columns, names);
    lemma_specific_lead(table, columns, names);
    let object = references::object_ref(columns, node_id, names, specific);
    assert(all_lead(object, names.tables));
    let patterned = references::pattern_refs(table, columns, rules, names, object);
    lemma_patterned_lead(table, columns, rules, names, object);
    let localized = references::localized_refs(columns, names, patterned);
    lemma_localized_lead(columns, names, patterned);
    let using = references::using_ref(table, columns, localized);
    assert(all_lead(using, names.tables));
    lemma_localized_lead(columns, names, using);
}

/// In the schema of any files no table stands twice, and every reference of a table
/// leads to a table of the schema.
pub proof fn law_references_lead_to_tables(files: Seq<DiscoveryModel>)
    ensures
        ({
            let s = schema_build::schema_of(schema_build::all_seen(files));
            &&& textmap::distinct(s.tables)
            &&& forall|i: int|
                0 <= i < s.tables.len() ==> all_lead(
                    (#[trigger] s.tables[i]).1.fk_constraints,
                    s.tables,
                )
        }),
{
    let d = schema_build::all_seen(files);
    let s = schema_build::schema_of(d);
    let names = schema_build::final_names(d);
    lemma_seen_sound(files);
    lemma_names_sound(d);
    lemma_same_keys(names.tables, s.tables, "loca__english"@);
    assert forall|i: int| 0 <= i < s.tables.len() implies all_lead(
        (#[trigger] s.tables[i]).1.fk_constraints,
        s.tables,
    ) by {
        let p = names.tables[i];
        assert(s.tables[i] == (p.0, schema_build::table_of(names, p.0, p.1)));
        textmap::lemma_key_pos(names.tables, p.0);
        assert(names.tables[i].0 == p.0);
        lemma_references_lead(p.0, p.1.columns, p.1.node_id, names);
        let fks = s.tables[i].1.fk_constraints;
        assert forall|k: int| 0 <= k < fks.len() implies textmap::has_key(
            s.tables,
            (#[trigger] fks[k]).target_table,
        ) by {
            lemma_same_keys(names.tables, s.tables, fks[k].target_table);
        }
    }
}

// ---------------------------------------------------------------------------
// Columns
// ---------------------------------------------------------------------------

proof fn lemma_data_without_key(columns: Seq<(Seq<char>, Seq<char>)>, pk: PkStrategy)
    requires
        pk != PkStrategy::Rowid,
    ensures
        forall|i: int|
            0 <= i < schema_build::data_columns(columns, pk).len() ==> (
            #[trigger] schema_build::data_columns(columns, pk)[i]).name != pk.key_column(),
    decreases columns.len(),
{
    if columns.len() > 0 {
        lemma_data_without_key(columns.drop_last(), pk);
        let before = schema_build::data_columns(columns.drop_last(), pk);
        let r = schema_build::data_columns(columns, pk);
        assert forall|i: int| 0 <= i < r.len() implies (#[trigger] r[i]).name
            != pk.key_column() by {
            if i < before.len() {
                assert(r[i] == before[i]);
            } else {
                assert(r[i] == schema_build::column_of(columns.last()));
            }
        }
    }
}

/// A column that is left was there.
pub proof fn lemma_kept_columns(columns: Seq<ColumnModel>)
    ensures
        forall|i: int|
            0 <= i < schema_build::without_doubles(columns).len() ==> columns.contains(
                #[trigger] schema_build::without_doubles(columns)[i],
            ),
    decreases columns.len(),
{
    if columns.len() > 0 {
        let d = columns.drop_last();
        lemma_kept_columns(d);
        let r = schema_build::without_doubles(columns);
        assert forall|i: int| 0 <= i < r.len() implies columns.contains(#[trigger] r[i]) by {
            if i < schema_build::without_doubles(d).len() {
                assert(d.contains(schema_build::without_doubles(d)[i]));
                let k = choose|k: int| 0 <= k < d.len() && d[k] == r[i];
                assert(columns[k] == r[i]);
            } else {
                assert(columns[columns.len() - 1] == r[i]);
            }
        }
    }
}

/// In the schema of any files the data columns of a table ascend by name, no two of
/// them are called the same up to the case of ASCII letters, and none is the column
/// of its key.
pub proof fn law_schema_columns(files: Seq<DiscoveryModel>, i: int)
    requires
        0 <= i < schema_build::schema_of(schema_build::all_seen(files)).tables.len(),
    ensures
        ({
            let t = schema_build::schema_of(schema_build::all_seen(files)).tables[i].1;
            &&& forall|a: int, b: int|
                0 <= a < b < t.columns.len() ==> {
                    &&& order::text_lt(
                        (#[trigger] t.columns[a]).name,
                        (#[trigger] t.columns[b]).name,
                    )
                    &&& text::ascii_lowered(t.columns[a].name) != text::ascii_lowered(
                        t.columns[b].name,
                    )
                }
            &&& t.pk_strategy != PkStrategy::Rowid ==> forall|a: int|
                0 <= a < t.columns.len() ==> (#[trigger] t.columns[a]).name
                    != t.pk_strategy.key_column()
        }),
{
    let d = schema_build::all_seen(files);
    let names = schema_build::final_names(d);
    let p = names.tables[i];
    let t = schema_build::schema_of(d).tables[i].1;
    assert(t == schema_build::table_of(names, p.0, p.1));
    schema_build::law_columns_in_order(p.1.columns, t.pk_strategy);
    let data = schema_build::data_columns(p.1.columns, t.pk_strategy);
    let before = order::rank::<ColumnDef>();
    let sorted = order::stable_sort(data, before);
    order::lemma_sorted_from(data, before);
    lemma_kept_columns(sorted);
    if t.pk_strategy != PkStrategy::Rowid {
        lemma_data_without_key(p.1.columns, t.pk_strategy);
        assert forall|a: int| 0 <= a < t.columns.len() implies (#[trigger] t.columns[a]).name
            != t.pk_strategy.key_column() by {
            assert(t.columns[a] == schema_build::without_doubles(sorted)[a]);
            let k = choose|k: int| 0 <= k < sorted.len() && sorted[k] == t.columns[a];
            assert(data.contains(sorted[k]));
            let m = choose|m: int| 0 <= m < data.len() && data[m] == sorted[k];
            assert(data[m].name != t.pk_strategy.key_column());
        }
    }
}

// ---------------------------------------------------------------------------
// Junctions
// ---------------------------------------------------------------------------

/// The junction that a lookup gives for two tables.
pub open spec fn found_junction(
    lookup: Seq<(Seq<char>, Seq<(Seq<char>, Seq<char>)>)>,
    p: Seq<char>,
    c: Seq<char>,
) -> Option<Seq<char>> {
    match textmap::value_of(lookup, p) {
        Some(m) => textmap::value_of(m, c),
        None => None,
    }
}

/// Whether a junction has the given tables.
pub open spec fn joins(j: JunctionModel, p: Seq<char>, c: Seq<char>) -> bool {
    j.parent_table == p && j.child_table == c
}

/// Whether a junction of a name has the given tables.
pub open spec fn lists_junction(
    js: Seq<JunctionModel>,
    p: Seq<char>,
    c: Seq<char>,
    name: Seq<char>,
) -> bool {
    exists|i: int|
        0 <= i < js.len() && joins(#[trigger] js[i], p, c) && js[i].table_name == name
}

/// Whether junctions of the same two tables have the same name.
pub open spec fn named_by_tables(js: Seq<JunctionModel>) -> bool {
    forall|a: int, b: int|
        0 <= a < js.len() && 0 <= b < js.len() && joins(
            #[trigger] js[a],
            (#[trigger] js[b]).parent_table,
            js[b].child_table,
        ) ==> js[a].table_name == js[b].table_name
}

/// Whether no key of a lookup stands twice.
pub open spec fn distinct_lookup(lookup: Seq<(Seq<char>, Seq<(Seq<char>, Seq<char>)>)>) -> bool {
    &&& textmap::distinct(lookup)
    &&& forall|i: int| 0 <= i < lookup.len() ==> textmap::distinct((#[trigger] lookup[i]).1)
}

proof fn lemma_with_junction(
    lookup: Seq<(Seq<char>, Seq<(Seq<char>, Seq<char>)>)>,
    j: JunctionModel,
    p: Seq<char>,
    c: Seq<char>,
)
    requires
        distinct_lookup(lookup),
    ensures
        distinct_lookup(schema_build::with_junction(lookup, j)),
        found_junction(schema_build::with_junction(lookup, j), p, c) == if joins(j, p, c) {
            Some(j.table_name)
        } else {
            found_junction(lookup, p, c)
        },
{
    let n = schema_build::with_junction(lookup, j);
    let none = Seq::<(Seq<char>, Seq<char>)>::empty();
    let inner = match textmap::value_of(lookup, j.parent_table) {
        Some(m) => m,
        None => none,
    };
    textmap::lemma_key_pos(lookup, j.parent_table);
    assert(textmap::distinct(inner)) by {
        match textmap::key_pos(lookup, j.parent_table) {
            Some(i) => {
                assert(lookup[i].1 == inner);
            },
            None => {},
        }
    }
    let more = textmap::with_value(inner, j.child_table, j.table_name);
    textmap::law_with_value(inner, j.child_table, j.table_name, c);
    textmap::law_with_value(lookup, j.parent_table, more, p);
    assert forall|i: int| 0 <= i < n.len() implies textmap::distinct((#[trigger] n[i]).1) by {
        if n[i] != (j.parent_table, more) {
            assert(n[i] == lookup[i]);
        }
    }
}

proof fn lemma_lookup(js: Seq<JunctionModel>)
    requires
        named_by_tables(js),
    ensures
        distinct_lookup(schema_build::junction_lookup(js)),
        forall|i: int|
            0 <= i < js.len() ==> found_junction(
                schema_build::junction_lookup(js),
                (#[trigger] js[i]).parent_table,
                js[i].child_table,
            ) == Some(js[i].table_name),
        forall|p: Seq<char>, c: Seq<char>|
            (#[trigger] found_junction(schema_build::junction_lookup(js), p, c)) is Some
                ==> exists|i: int| 0 <= i < js.len() && joins(#[trigger] js[i], p, c),
    decreases js.len(),
{
    if js.len() > 0 {
        let d = js.drop_last();
        let j = js.last();
        assert forall|a: int, b: int|
            0 <= a < d.len() && 0 <= b < d.len() && joins(
                #[trigger] d[a],
                (#[trigger] d[b]).parent_table,
                d[b].child_table,
            ) implies d[a].table_name == d[b].table_name by {
            assert(d[a] == js[a] && d[b] == js[b]);
            assert(joins(js[a], js[b].parent_table, js[b].child_table));
        }
        lemma_lookup(d);
        let before = schema_build::junction_lookup(d);
        let after = schema_build::junction_lookup(js);
        lemma_with_junction(before, j, j.parent_table, j.child_table);
        assert forall|i: int| 0 <= i < js.len() implies found_junction(
            after,
            (#[trigger] js[i]).parent_table,
            js[i].child_table,
        ) == Some(js[i].table_name) by {
            lemma_with_junction(before, j, js[i].parent_table, js[i].child_table);
            if i < d.len() {
                assert(d[i] == js[i]);
                if joins(j, js[i].parent_table, js[i].child_table) {
                    assert(joins(js[js.len() - 1], js[i].parent_table, js[i].child_table));
                }
            }
        }
        assert forall|p: Seq<char>, c: Seq<char>|
            (#[trigger] found_junction(after, p, c)) is Some implies exists|i: int|
            0 <= i < js.len() && joins(#[trigger] js[i], p, c) by {
            lemma_with_junction(before, j, p, c);
            if joins(j, p, c) {
                assert(joins(js[js.len() - 1], p, c));
            } else {
                assert(found_junction(before, p, c) is Some);
                let i = choose|i: int| 0 <= i < d.len() && joins(#[trigger] d[i], p, c);
                assert(joins(js[i], p, c));
            }
        }
    }
}

proof fn lemma_tables_name_junctions(tables: Seq<(Seq<char>, TableModel)>)
    requires
        textmap::distinct(tables),
    ensures
        named_by_tables(schema_build::sorted_junctions(tables)),
{
    schema_build::law_junctions_link_tables(tables);
    let js = schema_build::sorted_junctions(tables);
    assert forall|a: int, b: int|
        0 <= a < js.len() && 0 <= b < js.len() && joins(
            #[trigger] js[a],
            (#[trigger] js[b]).parent_table,
            js[b].child_table,
        ) implies js[a].table_name == js[b].table_name by {
        assert(schema_build::links_tables(tables, js[a]));
        assert(schema_build::links_tables(tables, js[b]));
        let (p, c) = choose|p: int, c: int|
            {
                &&& 0 <= p < tables.len()
                &&& 0 <= c < tables.len()
                &&& js[a] == schema_build::junction_of(
                    (#[trigger] tables[p]).0,
                    tables[p].1,
                    (#[trigger] tables[c]).0,
                    tables[c].1,
                )
            };
        let (q, e) = choose|q: int, e: int|
            {
                &&& 0 <= q < tables.len()
                &&& 0 <= e < tables.len()
                &&& js[b] == schema_build::junction_of(
                    (#[trigger] tables[q]).0,
                    tables[q].1,
                    (#[trigger] tables[e]).0,
                    tables[e].1,
                )
            };
        assert(tables[c].0 == tables[e].0);
        if c < e {
            assert(tables[c].0 != tables[e].0);
        }
        if e < c {
            assert(tables[e].0 != tables[c].0);
        }
        assert(c == e);
    }
}

/// In the schema of any files the junction tables stand in the order of their names,
/// each links two tables of the schema, and the lookup gives a junction table for two
/// tables exactly where a junction of that name links them.
pub proof fn law_lookup_gives_junctions(files: Seq<DiscoveryModel>)
    ensures
        ({
            let s = schema_build::schema_of(schema_build::all_seen(files));
            &&& forall|a: int, b: int|
                0 <= a < b < s.junction_tables.len() ==> !order::text_lt(
                    (#[trigger] s.junction_tables[b]).table_name,
                    (#[trigger] s.junction_tables[a]).table_name,
                )
            &&& forall|i: int|
                0 <= i < s.junction_tables.len() ==> textmap::has_key(
                    s.tables,
                    (#[trigger] s.junction_tables[i]).parent_table,
                ) && textmap::has_key(s.tables, s.junction_tables[i].child_table)
            &&& forall|p: Seq<char>, c: Seq<char>, name: Seq<char>|
                tree_insert::junction_of(s, p, c) == Some(name) <==> #[trigger] lists_junction(
                    s.junction_tables,
                    p,
                    c,
                    name,
                )
        }),
{
    let s = schema_build::schema_of(schema_build::all_seen(files));
    let js = s.junction_tables;
    law_references_lead_to_tables(files);
    let before = order::rank::<JunctionDef>();
    order::lemma_text_orders(before, |j: JunctionModel| j.table_name);
    order::law_sort_orders(schema_build::all_junctions(s.tables, s.tables), before);
    assert forall|a: int, b: int| 0 <= a < b < js.len() implies !order::text_lt(
        (#[trigger] js[b]).table_name,
        (#[trigger] js[a]).table_name,
    ) by {
        assert(!before(js[b], js[a]));
    }
    schema_build::law_junctions_link_tables(s.tables);
    assert forall|i: int| 0 <= i < js.len() implies textmap::has_key(
        s.tables,
        (#[trigger] js[i]).parent_table,
    ) && textmap::has_key(s.tables, js[i].child_table) by {
        assert(schema_build::links_tables(s.tables, js[i]));
        textmap::lemma_key_pos(s.tables, js[i].parent_table);
        textmap::lemma_key_pos(s.tables, js[i].child_table);
    }
    lemma_tables_name_junctions(s.tables);
    lemma_lookup(js);
    assert forall|p: Seq<char>, c: Seq<char>, name: Seq<char>|
        tree_insert::junction_of(s, p, c) == Some(name) <==> #[trigger] lists_junction(
            js,
            p,
            c,
            name,
        ) by {
        assert(tree_insert::junction_of(s, p, c) == found_junction(s.junction_lookup, p, c));
        if found_junction(s.junction_lookup, p, c) == Some(name) {
            let i = choose|i: int| 0 <= i < js.len() && joins(#[trigger] js[i], p, c);
            assert(js[i].table_name == name);
        }
        if lists_junction(js, p, c, name) {
            let i = choose|i: int|
                0 <= i < js.len() && joins(#[trigger] js[i], p, c) && js[i].table_name == name;
            assert(found_junction(s.junction_lookup, js[i].parent_table, js[i].child_table) == Some(
                js[i].table_name,
            ));
        }
    }
}

} // verus!
