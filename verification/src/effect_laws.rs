//! What holds of the rows that effects and definitions come to.

use vstd::prelude::*;
use crate::allspark;
use crate::allspark::{SparkComponentModel, SparkGroupModel, SparkRegistryModel};
use crate::effects;
use crate::effects::EffectModel;
use crate::schema::SchemaModel;
use crate::sql;
use crate::sql::StatementModel;
use crate::text;
use crate::textmap;
use crate::types::SqlModel;

verus! {

/// Whether a row of these values is written.
pub open spec fn writes(
    rows: Seq<StatementModel>,
    what: Seq<char>,
    values: Seq<SqlModel>,
) -> bool {
    exists|i: int|
        0 <= i < rows.len() && (#[trigger] rows[i]).what == what && rows[i].params == values
}

/// What either of two lists writes, both together write.
pub proof fn lemma_writes_first(
    a: Seq<StatementModel>,
    b: Seq<StatementModel>,
    what: Seq<char>,
    values: Seq<SqlModel>,
)
    ensures
        writes(a, what, values) || writes(b, what, values) ==> writes(a + b, what, values),
{
    if writes(a, what, values) {
        let i = choose|i: int|
            0 <= i < a.len() && (#[trigger] a[i]).what == what && a[i].params == values;
        assert((a + b)[i] == a[i]);
    } else if writes(b, what, values) {
        let i = choose|i: int|
            0 <= i < b.len() && (#[trigger] b[i]).what == what && b[i].params == values;
        assert((a + b)[a.len() + i] == b[i]);
    }
}

/// What one of several items writes, all of them together write.
pub proof fn lemma_writes_part<T>(
    list: Seq<T>,
    f: spec_fn(T) -> Seq<StatementModel>,
    k: int,
    what: Seq<char>,
    values: Seq<SqlModel>,
)
    requires
        0 <= k < list.len(),
        writes(f(list[k]), what, values),
    ensures
        writes(sql::statements_of(list, f), what, values),
    decreases list.len(),
{
    let d = list.drop_last();
    lemma_writes_first(sql::statements_of(d, f), f(list.last()), what, values);
    if k < d.len() {
        assert(d[k] == list[k]);
        lemma_writes_part(d, f, k, what, values);
    }
}

proof fn lemma_writes_one(s: StatementModel)
    ensures
        writes(seq![s], s.what, s.params),
{
    assert(seq![s][0] == s);
}

// ---------------------------------------------------------------------------
// Effects
// ---------------------------------------------------------------------------

/// A text that may be missing, as it is stored.
pub open spec fn stored(s: Option<Seq<char>>) -> SqlModel {
    match s {
        Some(t) => SqlModel::Text(t),
        None => SqlModel::Null,
    }
}

/// An effect is written where there is a table for effects.
pub proof fn law_effect_is_written(
    e: EffectModel,
    source: Seq<char>,
    file_id: i64,
    schema: SchemaModel,
)
    requires
        textmap::has_key(schema.tables, "effect__effects"@),
    ensures
        writes(
            effects::effect_rows(e, source, file_id, schema),
            "Insert effect"@,
            seq![
                SqlModel::Integer(file_id as int),
                SqlModel::Text(e.id),
                SqlModel::Text(e.version),
                SqlModel::Text(e.effect_version),
                stored(e.phases_xml),
                stored(e.colors_xml),
                SqlModel::Text(source),
            ],
        ),
{
    let p = effects::place_of(e, source, file_id, schema);
    let row = effects::effect_row(e, p);
    lemma_writes_one(row);
    lemma_writes_first(
        seq![row],
        sql::statements_of(e.track_groups, effects::group_rows(p)),
        row.what,
        row.params,
    );
}

/// Every component of every track of an effect is written with its track and its group,
/// every property with its component, and every value with its property, where there is a
/// table for them.
pub proof fn law_effect_parts_are_written(
    e: EffectModel,
    source: Seq<char>,
    file_id: i64,
    schema: SchemaModel,
    g: int,
    t: int,
    c: int,
    q: int,
    d: int,
)
    requires
        0 <= g < e.track_groups.len(),
        0 <= t < e.track_groups[g].tracks.len(),
        0 <= c < e.track_groups[g].tracks[t].components.len(),
    ensures
        ({
            let rows = effects::effect_rows(e, source, file_id, schema);
            let group = e.track_groups[g];
            let track = group.tracks[t];
            let part = track.components[c];
            let property = part.properties[q];
            let datum = property.data[d];
            &&& textmap::has_key(schema.tables, "effect__components"@) ==> writes(
                rows,
                "Insert effect component"@,
                seq![
                    SqlModel::Integer(file_id as int),
                    SqlModel::Text(part.instance_name),
                    SqlModel::Text(part.class_name),
                    SqlModel::Text(part.start),
                    SqlModel::Text(part.end),
                    SqlModel::Text(track.name),
                    SqlModel::Text(group.name),
                    SqlModel::Text(e.id),
                    SqlModel::Text(source),
                ],
            )
            &&& 0 <= q < part.properties.len() && textmap::has_key(
                schema.tables,
                "effect__properties"@,
            ) ==> writes(
                rows,
                "Insert effect property"@,
                seq![
                    SqlModel::Integer(file_id as int),
                    SqlModel::Text(property.guid),
                    SqlModel::Text(part.instance_name),
                    SqlModel::Text(e.id),
                    SqlModel::Text(source),
                ],
            )
            &&& 0 <= q < part.properties.len() && 0 <= d < property.data.len() && textmap::has_key(
                schema.tables,
                "effect__datums"@,
            ) ==> writes(
                rows,
                "Insert effect datum"@,
                seq![
                    SqlModel::Integer(file_id as int),
                    SqlModel::Text(property.guid),
                    SqlModel::Text(part.instance_name),
                    SqlModel::Text(datum.platform),
                    SqlModel::Text(datum.lod),
                    SqlModel::Text(text::or_empty(datum.value)),
                    SqlModel::Text(e.id),
                    SqlModel::Text(source),
                ],
            )
        }),
{
    let p = effects::place_of(e, source, file_id, schema);
    let group = e.track_groups[g];
    let track = group.tracks[t];
    let part = track.components[c];
    let property = part.properties[q];
    let datum = property.data[d];
    let own = effects::component_row(p, group.name, track.name, part);
    let below = sql::statements_of(
        part.properties,
        effects::property_rows(p, part.instance_name),
    );
    if p.has_components {
        lemma_writes_one(own);
        lemma_writes_first(seq![own], below, own.what, own.params);
        lemma_component(e, source, file_id, schema, g, t, c, own.what, own.params);
    }
    if 0 <= q < part.properties.len() {
        let row = effects::property_row(p, property.guid, part.instance_name);
        let head = if p.has_properties {
            seq![row]
        } else {
            Seq::empty()
        };
        let f = effects::datum_row(p, property.guid, part.instance_name);
        let data = if p.has_datums {
            sql::statements_of(property.data, f)
        } else {
            Seq::empty()
        };
        let first = if p.has_components {
            seq![own]
        } else {
            Seq::empty()
        };
        if p.has_properties {
            lemma_writes_one(row);
            lemma_writes_first(head, data, row.what, row.params);
            lemma_writes_part(
                part.properties,
                effects::property_rows(p, part.instance_name),
                q,
                row.what,
                row.params,
            );
            lemma_writes_first(first, below, row.what, row.params);
            lemma_component(e, source, file_id, schema, g, t, c, row.what, row.params);
        }
        if p.has_datums && 0 <= d < property.data.len() {
            let one = f(datum)[0];
            assert(f(datum) =~= seq![one]);
            lemma_writes_one(one);
            lemma_writes_part(property.data, f, d, one.what, one.params);
            lemma_writes_first(head, data, one.what, one.params);
            lemma_writes_part(
                part.properties,
                effects::property_rows(p, part.instance_name),
                q,
                one.what,
                one.params,
            );
            lemma_writes_first(first, below, one.what, one.params);
            lemma_component(e, source, file_id, schema, g, t, c, one.what, one.params);
        }
    }
}

proof fn lemma_component(
    e: EffectModel,
    source: Seq<char>,
    file_id: i64,
    schema: SchemaModel,
    g: int,
    t: int,
    c: int,
    what: Seq<char>,
    values: Seq<SqlModel>,
)
    requires
        0 <= g < e.track_groups.len(),
        0 <= t < e.track_groups[g].tracks.len(),
        0 <= c < e.track_groups[g].tracks[t].components.len(),
        ({
            let p = effects::place_of(e, source, file_id, schema);
            let group = e.track_groups[g];
            let track = group.tracks[t];
            writes(
                effects::component_rows(p, group.name, track.name)(track.components[c]),
                what,
                values,
            )
        }),
    ensures
        writes(effects::effect_rows(e, source, file_id, schema), what, values),
{
    let p = effects::place_of(e, source, file_id, schema);
    let group = e.track_groups[g];
    let track = group.tracks[t];
    lemma_writes_part(
        track.components,
        effects::component_rows(p, group.name, track.name),
        c,
        what,
        values,
    );
    lemma_writes_part(group.tracks, effects::track_rows(p, group.name), t, what, values);
    lemma_writes_part(e.track_groups, effects::group_rows(p), g, what, values);
    let head = if textmap::has_key(schema.tables, "effect__effects"@) {
        seq![effects::effect_row(e, p)]
    } else {
        Seq::empty()
    };
    lemma_writes_first(
        head,
        sql::statements_of(e.track_groups, effects::group_rows(p)),
        what,
        values,
    );
}

// ---------------------------------------------------------------------------
// Definitions
// ---------------------------------------------------------------------------

proof fn lemma_six(
    a: Seq<StatementModel>,
    b: Seq<StatementModel>,
    c: Seq<StatementModel>,
    d: Seq<StatementModel>,
    e: Seq<StatementModel>,
    f: Seq<StatementModel>,
    what: Seq<char>,
    values: Seq<SqlModel>,
)
    requires
        writes(a, what, values) || writes(b, what, values) || writes(c, what, values) || writes(
            d,
            what,
            values,
        ) || writes(e, what, values) || writes(f, what, values),
    ensures
        writes(a + b + c + d + e + f, what, values),
{
    lemma_writes_first(a, b, what, values);
    lemma_writes_first(a + b, c, what, values);
    lemma_writes_first(a + b + c, d, what, values);
    lemma_writes_first(a + b + c + d, e, what, values);
    lemma_writes_first(a + b + c + d + e, f, what, values);
}

proof fn lemma_spark(
    r: SparkRegistryModel,
    file_id: i64,
    schema: SchemaModel,
    what: Seq<char>,
    values: Seq<SqlModel>,
)
    ensures
        ({
            let rows = allspark::spark_rows(r, file_id, schema);
            let t = schema.tables;
            &&& textmap::has_key(t, "allspark__components"@) && writes(
                sql::statements_of(r.components, allspark::component_rows(file_id)),
                what,
                values,
            ) ==> writes(rows, what, values)
            &&& textmap::has_key(t, "allspark__properties"@) && writes(
                sql::statements_of(r.components, allspark::property_rows(file_id)),
                what,
                values,
            ) ==> writes(rows, what, values)
            &&& textmap::has_key(t, "allspark__property_groups"@) && writes(
                sql::statements_of(r.components, allspark::group_rows(file_id)),
                what,
                values,
            ) ==> writes(rows, what, values)
            &&& textmap::has_key(t, "allspark__property_group_refs"@) && writes(
                sql::statements_of(r.components, allspark::all_member_rows(file_id)),
                what,
                values,
            ) ==> writes(rows, what, values)
            &&& textmap::has_key(t, "allspark__modules"@) && writes(
                sql::statements_of(r.modules, allspark::module_rows(file_id)),
                what,
                values,
            ) ==> writes(rows, what, values)
            &&& textmap::has_key(t, "allspark__module_properties"@) && writes(
                sql::statements_of(r.modules, allspark::module_property_rows(file_id)),
                what,
                values,
            ) ==> writes(rows, what, values)
        }),
{
    let a = allspark::if_table(
        schema,
        "allspark__components"@,
        sql::statements_of(r.components, allspark::component_rows(file_id)),
    );
    let b = allspark::if_table(
        schema,
        "allspark__properties"@,
        sql::statements_of(r.components, allspark::property_rows(file_id)),
    );
    let c = allspark::if_table(
        schema,
        "allspark__property_groups"@,
        sql::statements_of(r.components, allspark::group_rows(file_id)),
    );
    let d = allspark::if_table(
        schema,
        "allspark__property_group_refs"@,
        sql::statements_of(r.components, allspark::all_member_rows(file_id)),
    );
    let e = allspark::if_table(
        schema,
        "allspark__modules"@,
        sql::statements_of(r.modules, allspark::module_rows(file_id)),
    );
    let f = allspark::if_table(
        schema,
        "allspark__module_properties"@,
        sql::statements_of(r.modules, allspark::module_property_rows(file_id)),
    );
    if writes(a, what, values) || writes(b, what, values) || writes(c, what, values) || writes(
        d,
        what,
        values,
    ) || writes(e, what, values) || writes(f, what, values) {
        lemma_six(a, b, c, d, e, f, what, values);
    }
}

proof fn lemma_groups(
    file_id: i64,
    c: SparkComponentModel,
    n: int,
    g: int,
)
    requires
        0 <= g < n <= c.property_groups.len(),
        n <= i64::MAX,
    ensures
        writes(
            allspark::first_group_rows(file_id, c, n),
            "Insert allspark property group"@,
            seq![
                SqlModel::Integer(file_id as int),
                SqlModel::Text(c.property_groups[g].guid),
                SqlModel::Text(c.name),
                SqlModel::Text(c.property_groups[g].name),
                stored(c.property_groups[g].collapsed),
                SqlModel::Integer(g),
            ],
        ),
    decreases n,
{
    let r = allspark::first_group_rows(file_id, c, n);
    let values = seq![
        SqlModel::Integer(file_id as int),
        SqlModel::Text(c.property_groups[g].guid),
        SqlModel::Text(c.name),
        SqlModel::Text(c.property_groups[g].name),
        stored(c.property_groups[g].collapsed),
        SqlModel::Integer(g),
    ];
    if g < n - 1 {
        lemma_groups(file_id, c, n - 1, g);
        let before = allspark::first_group_rows(file_id, c, n - 1);
        let i = choose|i: int|
            0 <= i < before.len() && (#[trigger] before[i]).what
                == "Insert allspark property group"@ && before[i].params == values;
        assert(r[i] == before[i]);
    } else {
        assert(r[r.len() - 1].params =~= values);
    }
}

proof fn lemma_members(
    file_id: i64,
    component: Seq<char>,
    g: SparkGroupModel,
    n: int,
    m: int,
)
    requires
        0 <= m < n <= g.property_refs.len(),
        n <= i64::MAX,
    ensures
        writes(
            allspark::first_member_rows(file_id, component, g, n),
            "Insert allspark property group ref"@,
            seq![
                SqlModel::Integer(file_id as int),
                SqlModel::Text(g.guid),
                SqlModel::Text(component),
                SqlModel::Text(g.property_refs[m]),
                SqlModel::Integer(m),
            ],
        ),
    decreases n,
{
    let r = allspark::first_member_rows(file_id, component, g, n);
    let values = seq![
        SqlModel::Integer(file_id as int),
        SqlModel::Text(g.guid),
        SqlModel::Text(component),
        SqlModel::Text(g.property_refs[m]),
        SqlModel::Integer(m),
    ];
    if m < n - 1 {
        lemma_members(file_id, component, g, n - 1, m);
        let before = allspark::first_member_rows(file_id, component, g, n - 1);
        let i = choose|i: int|
            0 <= i < before.len() && (#[trigger] before[i]).what
                == "Insert allspark property group ref"@ && before[i].params == values;
        assert(r[i] == before[i]);
    } else {
        assert(r[r.len() - 1].params =~= values);
    }
}

/// Every component of a definition file is written, every property with its component,
/// every group of properties with its component and its place, and every member of a group
/// with its place, where there is a table for them.
pub proof fn law_components_are_written(
    r: SparkRegistryModel,
    file_id: i64,
    schema: SchemaModel,
    c: int,
    k: int,
    m: int,
)
    requires
        0 <= c < r.components.len(),
        r.components[c].property_groups.len() <= i64::MAX,
        forall|j: int|
            0 <= j < r.components[c].property_groups.len()
                ==> (#[trigger] r.components[c].property_groups[j]).property_refs.len() <= i64::MAX,
    ensures
        ({
            let rows = allspark::spark_rows(r, file_id, schema);
            let part = r.components[c];
            let property = part.properties[k];
            let group = part.property_groups[k];
            &&& textmap::has_key(schema.tables, "allspark__components"@) ==> writes(
                rows,
                "Insert allspark component"@,
                seq![
                    SqlModel::Integer(file_id as int),
                    SqlModel::Text(part.name),
                    stored(part.tooltip),
                    stored(part.color),
                ],
            )
            &&& 0 <= k < part.properties.len() && textmap::has_key(
                schema.tables,
                "allspark__properties"@,
            ) ==> writes(
                rows,
                "Insert allspark property"@,
                seq![
                    SqlModel::Integer(file_id as int),
                    SqlModel::Text(property.guid),
                    SqlModel::Text(part.name),
                    SqlModel::Text(property.name),
                    SqlModel::Text(property.value_type),
                    SqlModel::Integer(if property.specializable { 1 } else { 0 }),
                    stored(property.tooltip),
                    stored(property.default_value),
                ],
            )
            &&& 0 <= k < part.property_groups.len() && textmap::has_key(
                schema.tables,
                "allspark__property_groups"@,
            ) ==> writes(
                rows,
                "Insert allspark property group"@,
                seq![
                    SqlModel::Integer(file_id as int),
                    SqlModel::Text(group.guid),
                    SqlModel::Text(part.name),
                    SqlModel::Text(group.name),
                    stored(group.collapsed),
                    SqlModel::Integer(k),
                ],
            )
            &&& 0 <= k < part.property_groups.len() && 0 <= m < group.property_refs.len()
                && textmap::has_key(schema.tables, "allspark__property_group_refs"@) ==> writes(
                rows,
                "Insert allspark property group ref"@,
                seq![
                    SqlModel::Integer(file_id as int),
                    SqlModel::Text(group.guid),
                    SqlModel::Text(part.name),
                    SqlModel::Text(group.property_refs[m]),
                    SqlModel::Integer(m),
                ],
            )
        }),
{
    let part = r.components[c];
    let one = allspark::component_rows(file_id)(part)[0];
    assert(allspark::component_rows(file_id)(part) =~= seq![one]);
    lemma_writes_one(one);
    lemma_writes_part(r.components, allspark::component_rows(file_id), c, one.what, one.params);
    lemma_spark(r, file_id, schema, one.what, one.params);
    if 0 <= k < part.properties.len() {
        let f = allspark::property_row(file_id, part.name);
        let row = f(part.properties[k])[0];
        assert(f(part.properties[k]) =~= seq![row]);
        lemma_writes_one(row);
        lemma_writes_part(part.properties, f, k, row.what, row.params);
        lemma_writes_part(r.components, allspark::property_rows(file_id), c, row.what, row.params);
        lemma_spark(r, file_id, schema, row.what, row.params);
    }
    if 0 <= k < part.property_groups.len() {
        let group = part.property_groups[k];
        let values = seq![
            SqlModel::Integer(file_id as int),
            SqlModel::Text(group.guid),
            SqlModel::Text(part.name),
            SqlModel::Text(group.name),
            stored(group.collapsed),
            SqlModel::Integer(k),
        ];
        let what = "Insert allspark property group"@;
        lemma_groups(file_id, part, part.property_groups.len() as int, k);
        lemma_writes_part(r.components, allspark::group_rows(file_id), c, what, values);
        lemma_spark(r, file_id, schema, what, values);
        if 0 <= m < group.property_refs.len() {
            let cells = seq![
                SqlModel::Integer(file_id as int),
                SqlModel::Text(group.guid),
                SqlModel::Text(part.name),
                SqlModel::Text(group.property_refs[m]),
                SqlModel::Integer(m),
            ];
            let kind = "Insert allspark property group ref"@;
            lemma_members(file_id, part.name, group, group.property_refs.len() as int, m);
            lemma_writes_part(
                part.property_groups,
                allspark::member_rows(file_id, part.name),
                k,
                kind,
                cells,
            );
            lemma_writes_part(
                r.components,
                allspark::all_member_rows(file_id),
                c,
                kind,
                cells,
            );
            lemma_spark(r, file_id, schema, kind, cells);
        }
    }
}

/// Every module of a definition file is written, and every property that it sets, where
/// there is a table for them.
pub proof fn law_modules_are_written(
    r: SparkRegistryModel,
    file_id: i64,
    schema: SchemaModel,
    m: int,
    k: int,
)
    requires
        0 <= m < r.modules.len(),
    ensures
        ({
            let rows = allspark::spark_rows(r, file_id, schema);
            let module = r.modules[m];
            &&& textmap::has_key(schema.tables, "allspark__modules"@) ==> writes(
                rows,
                "Insert allspark module"@,
                seq![
                    SqlModel::Integer(file_id as int),
                    SqlModel::Text(module.guid),
                    SqlModel::Text(module.name),
                ],
            )
            &&& 0 <= k < module.properties.len() && textmap::has_key(
                schema.tables,
                "allspark__module_properties"@,
            ) ==> writes(
                rows,
                "Insert allspark module property"@,
                seq![
                    SqlModel::Integer(file_id as int),
                    SqlModel::Text(module.guid),
                    SqlModel::Text(module.properties[k].0),
                    SqlModel::Text(module.properties[k].1),
                ],
            )
        }),
{
    let module = r.modules[m];
    let one = allspark::module_rows(file_id)(module)[0];
    assert(allspark::module_rows(file_id)(module) =~= seq![one]);
    lemma_writes_one(one);
    lemma_writes_part(r.modules, allspark::module_rows(file_id), m, one.what, one.params);
    lemma_spark(r, file_id, schema, one.what, one.params);
    if 0 <= k < module.properties.len() {
        let f = allspark::module_property_row(file_id, module.guid);
        let row = f(module.properties[k])[0];
        assert(f(module.properties[k]) =~= seq![row]);
        lemma_writes_one(row);
        lemma_writes_part(module.properties, f, k, row.what, row.params);
        lemma_writes_part(
            r.modules,
            allspark::module_property_rows(file_id),
            m,
            row.what,
            row.params,
        );
        lemma_spark(r, file_id, schema, row.what, row.params);
    }
}

} // verus!
