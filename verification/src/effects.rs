//! Effects as rows: the effect, its components, their properties and values.

use vstd::prelude::*;
use crate::files::FileEntry;
use crate::parsed;
use crate::parsed::read_text_content;
use crate::schema::{DiscoveredSchema, SchemaModel};
use crate::sql;
use crate::sql::{opt_value, text_value, Statement, StatementModel};
use crate::text;
use crate::text::{owned, trim};
use crate::textmap;
use crate::types::{SqlModel, SqlValue};

verus! {

/// A value of a property, for a platform and a level of detail.
#[derive(Debug)]
pub struct Datum {
    pub platform: String,
    pub lod: String,
    pub value: Option<String>,
}

/// What a value of a property says.
pub struct DatumModel {
    pub platform: Seq<char>,
    pub lod: Seq<char>,
    pub value: Option<Seq<char>>,
}

impl DeepView for Datum {
    type V = DatumModel;

    open spec fn deep_view(&self) -> DatumModel {
        DatumModel {
            platform: self.platform@,
            lod: self.lod@,
            value: self.value.deep_view(),
        }
    }
}

/// A property of a component.
#[derive(Debug)]
pub struct EffectProperty {
    pub guid: String,
    pub data: Vec<Datum>,
}

/// What a property of a component says.
pub struct EffectPropertyModel {
    pub guid: Seq<char>,
    pub data: Seq<DatumModel>,
}

impl DeepView for EffectProperty {
    type V = EffectPropertyModel;

    open spec fn deep_view(&self) -> EffectPropertyModel {
        EffectPropertyModel {
            guid: self.guid@,
            data: self.data.deep_view(),
        }
    }
}

/// A component of an effect.
#[derive(Debug)]
pub struct EffectComponent {
    pub instance_name: String,
    pub class_name: String,
    pub start: String,
    pub end: String,
    pub properties: Vec<EffectProperty>,
}

/// What a component of an effect says.
pub struct EffectComponentModel {
    pub instance_name: Seq<char>,
    pub class_name: Seq<char>,
    pub start: Seq<char>,
    pub end: Seq<char>,
    pub properties: Seq<EffectPropertyModel>,
}

impl DeepView for EffectComponent {
    type V = EffectComponentModel;

    open spec fn deep_view(&self) -> EffectComponentModel {
        EffectComponentModel {
            instance_name: self.instance_name@,
            class_name: self.class_name@,
            start: self.start@,
            end: self.end@,
            properties: self.properties.deep_view(),
        }
    }
}

/// A track of components.
#[derive(Debug)]
pub struct Track {
    pub name: String,
    pub components: Vec<EffectComponent>,
}

/// What a track of components says.
pub struct TrackModel {
    pub name: Seq<char>,
    pub components: Seq<EffectComponentModel>,
}

impl DeepView for Track {
    type V = TrackModel;

    open spec fn deep_view(&self) -> TrackModel {
        TrackModel {
            name: self.name@,
            components: self.components.deep_view(),
        }
    }
}

/// A group of tracks.
#[derive(Debug)]
pub struct TrackGroup {
    pub name: String,
    pub tracks: Vec<Track>,
}

/// What a group of tracks says.
pub struct TrackGroupModel {
    pub name: Seq<char>,
    pub tracks: Seq<TrackModel>,
}

impl DeepView for TrackGroup {
    type V = TrackGroupModel;

    open spec fn deep_view(&self) -> TrackGroupModel {
        TrackGroupModel {
            name: self.name@,
            tracks: self.tracks.deep_view(),
        }
    }
}

/// An effect.
#[derive(Debug)]
pub struct Effect {
    pub id: String,
    pub version: String,
    pub effect_version: String,
    pub phases_xml: Option<String>,
    pub colors_xml: Option<String>,
    pub track_groups: Vec<TrackGroup>,
}

/// What an effect says.
pub struct EffectModel {
    pub id: Seq<char>,
    pub version: Seq<char>,
    pub effect_version: Seq<char>,
    pub phases_xml: Option<Seq<char>>,
    pub colors_xml: Option<Seq<char>>,
    pub track_groups: Seq<TrackGroupModel>,
}

impl DeepView for Effect {
    type V = EffectModel;

    open spec fn deep_view(&self) -> EffectModel {
        EffectModel {
            id: self.id@,
            version: self.version@,
            effect_version: self.effect_version@,
            phases_xml: self.phases_xml.deep_view(),
            colors_xml: self.colors_xml.deep_view(),
            track_groups: self.track_groups.deep_view(),
        }
    }
}

/// Where the rows of an effect belong, and which tables are there.
#[derive(Debug)]
pub struct EffectPlace {
    pub file_id: i64,
    pub effect_id: String,
    pub source_file: String,
    pub has_components: bool,
    pub has_properties: bool,
    pub has_datums: bool,
}

/// Where the rows of an effect belong, and which tables are there.
pub struct PlaceModel {
    pub file_id: i64,
    pub effect_id: Seq<char>,
    pub source_file: Seq<char>,
    pub has_components: bool,
    pub has_properties: bool,
    pub has_datums: bool,
}

impl DeepView for EffectPlace {
    type V = PlaceModel;

    open spec fn deep_view(&self) -> PlaceModel {
        PlaceModel {
            file_id: self.file_id,
            effect_id: self.effect_id@,
            source_file: self.source_file@,
            has_components: self.has_components,
            has_properties: self.has_properties,
            has_datums: self.has_datums,
        }
    }
}

/// The row of an effect.
pub open spec fn effect_row(e: EffectModel, p: PlaceModel) -> StatementModel {
    StatementModel {
        what: "Insert effect"@,
        sql: "INSERT OR IGNORE INTO \"effect__effects\" (_file_id, id, version, effect_version, phases_xml, colors_xml, source_file) VALUES (?1, ?2, ?3, ?4, ?5, ?6, ?7)"@,
        params: seq![
            SqlModel::Integer(p.file_id as int),
            SqlModel::Text(p.effect_id),
            SqlModel::Text(e.version),
            SqlModel::Text(e.effect_version),
            sql::optional_value(e.phases_xml),
            sql::optional_value(e.colors_xml),
            SqlModel::Text(p.source_file),
        ],
    }
}

/// The row of a value of a property.
pub open spec fn datum_row(p: PlaceModel, guid: Seq<char>, instance: Seq<char>) -> spec_fn(
    DatumModel,
) -> Seq<StatementModel> {
    |d: DatumModel|
        seq![
            StatementModel {
                what: "Insert effect datum"@,
                sql: "INSERT INTO \"effect__datums\" (_file_id, property_guid, component_instance, platform, lod, value, effect_id, source_file) VALUES (?1, ?2, ?3, ?4, ?5, ?6, ?7, ?8)"@,
                params: seq![
                    SqlModel::Integer(p.file_id as int),
                    SqlModel::Text(guid),
                    SqlModel::Text(instance),
                    SqlModel::Text(d.platform),
                    SqlModel::Text(d.lod),
                    SqlModel::Text(text::or_empty(d.value)),
                    SqlModel::Text(p.effect_id),
                    SqlModel::Text(p.source_file),
                ],
            },
        ]
}

/// The row of a property.
pub open spec fn property_row(p: PlaceModel, guid: Seq<char>, instance: Seq<char>) -> StatementModel {
    StatementModel {
        what: "Insert effect property"@,
        sql: "INSERT INTO \"effect__properties\" (_file_id, property_guid, component_instance, effect_id, source_file) VALUES (?1, ?2, ?3, ?4, ?5)"@,
        params: seq![
            SqlModel::Integer(p.file_id as int),
            SqlModel::Text(guid),
            SqlModel::Text(instance),
            SqlModel::Text(p.effect_id),
            SqlModel::Text(p.source_file),
        ],
    }
}

/// The rows of a property and its values.
pub open spec fn property_rows(p: PlaceModel, instance: Seq<char>) -> spec_fn(
    EffectPropertyModel,
) -> Seq<StatementModel> {
    |q: EffectPropertyModel|
        (if p.has_properties {
            seq![property_row(p, q.guid, instance)]
        } else {
            Seq::empty()
        }) + (if p.has_datums {
            sql::statements_of(q.data, datum_row(p, q.guid, instance))
        } else {
            Seq::empty()
        })
}

/// The row of a component.
pub open spec fn component_row(
    p: PlaceModel,
    group: Seq<char>,
    track: Seq<char>,
    c: EffectComponentModel,
) -> StatementModel {
    StatementModel {
        what: "Insert effect component"@,
        sql: "INSERT INTO \"effect__components\" (_file_id, instance_name, class_name, start, \"end\", track_name, track_group_name, effect_id, source_file) VALUES (?1, ?2, ?3, ?4, ?5, ?6, ?7, ?8, ?9)"@,
        params: seq![
            SqlModel::Integer(p.file_id as int),
            SqlModel::Text(c.instance_name),
            SqlModel::Text(c.class_name),
            SqlModel::Text(c.start),
            SqlModel::Text(c.end),
            SqlModel::Text(track),
            SqlModel::Text(group),
            SqlModel::Text(p.effect_id),
            SqlModel::Text(p.source_file),
        ],
    }
}

/// The rows of a component, its properties and their values.
pub open spec fn component_rows(p: PlaceModel, group: Seq<char>, track: Seq<char>) -> spec_fn(
    EffectComponentModel,
) -> Seq<StatementModel> {
    |c: EffectComponentModel|
        (if p.has_components {
            seq![component_row(p, group, track, c)]
        } else {
            Seq::empty()
        }) + sql::statements_of(c.properties, property_rows(p, c.instance_name))
}

/// The rows of a track.
pub open spec fn track_rows(p: PlaceModel, group: Seq<char>) -> spec_fn(TrackModel) -> Seq<
    StatementModel,
> {
    |t: TrackModel| sql::statements_of(t.components, component_rows(p, group, t.name))
}

/// The rows of a group of tracks.
pub open spec fn group_rows(p: PlaceModel) -> spec_fn(TrackGroupModel) -> Seq<StatementModel> {
    |g: TrackGroupModel| sql::statements_of(g.tracks, track_rows(p, g.name))
}

/// Where the rows of an effect belong, and which tables are there.
pub open spec fn place_of(
    effect: EffectModel,
    source_file: Seq<char>,
    file_id: i64,
    schema: SchemaModel,
) -> PlaceModel {
    PlaceModel {
        file_id,
        effect_id: effect.id,
        source_file,
        has_components: textmap::has_key(schema.tables, "effect__components"@),
        has_properties: textmap::has_key(schema.tables, "effect__properties"@),
        has_datums: textmap::has_key(schema.tables, "effect__datums"@),
    }
}

/// The rows of an effect, of those tables that are there.
pub open spec fn effect_rows(
    effect: EffectModel,
    source_file: Seq<char>,
    file_id: i64,
    schema: SchemaModel,
) -> Seq<StatementModel> {
    let p = place_of(effect, source_file, file_id, schema);
    (if textmap::has_key(schema.tables, "effect__effects"@) {
        seq![effect_row(effect, p)]
    } else {
        Seq::empty()
    }) + sql::statements_of(effect.track_groups, group_rows(p))
}

fn make_effect_row(e: &Effect, p: &EffectPlace) -> (r: Statement)
    ensures
        r.deep_view() == effect_row(e.deep_view(), p.deep_view()),
{
    let params: Vec<SqlValue> = vec![
        SqlValue::Integer(p.file_id),
        text_value(p.effect_id.as_str()),
        text_value(e.version.as_str()),
        text_value(e.effect_version.as_str()),
        opt_value(&e.phases_xml),
        opt_value(&e.colors_xml),
        text_value(p.source_file.as_str()),
    ];
    let st = Statement {
        what: owned("Insert effect"),
        sql: owned("INSERT OR IGNORE INTO \"effect__effects\" (_file_id, id, version, effect_version, phases_xml, colors_xml, source_file) VALUES (?1, ?2, ?3, ?4, ?5, ?6, ?7)"),
        params,
    };
    assert(st.params.deep_view() =~= effect_row(e.deep_view(), p.deep_view()).params);
    st
}

fn filled_value(s: &Option<String>) -> (r: SqlValue)
    ensures
        r.deep_view() == SqlModel::Text(text::or_empty(s.deep_view())),
{
    match s {
        Some(t) => SqlValue::Text(t.clone()),
        None => {
            let none = String::new();
            assert(none@ =~= Seq::<char>::empty());
            SqlValue::Text(none)
        },
    }
}

fn make_datum_row(p: &EffectPlace, guid: &str, instance: &str, d: &Datum) -> (r: Statement)
    ensures
        r.deep_view() == datum_row(p.deep_view(), guid@, instance@)(d.deep_view())[0],
{
    let params: Vec<SqlValue> = vec![
        SqlValue::Integer(p.file_id),
        text_value(guid),
        text_value(instance),
        text_value(d.platform.as_str()),
        text_value(d.lod.as_str()),
        filled_value(&d.value),
        text_value(p.effect_id.as_str()),
        text_value(p.source_file.as_str()),
    ];
    let st = Statement {
        what: owned("Insert effect datum"),
        sql: owned("INSERT INTO \"effect__datums\" (_file_id, property_guid, component_instance, platform, lod, value, effect_id, source_file) VALUES (?1, ?2, ?3, ?4, ?5, ?6, ?7, ?8)"),
        params,
    };
    assert(st.params.deep_view() =~= datum_row(p.deep_view(), guid@, instance@)(d.deep_view())[0].params);
    st
}

fn make_property_row(p: &EffectPlace, guid: &str, instance: &str) -> (r: Statement)
    ensures
        r.deep_view() == property_row(p.deep_view(), guid@, instance@),
{
    let params: Vec<SqlValue> = vec![
        SqlValue::Integer(p.file_id),
        text_value(guid),
        text_value(instance),
        text_value(p.effect_id.as_str()),
        text_value(p.source_file.as_str()),
    ];
    let st = Statement {
        what: owned("Insert effect property"),
        sql: owned("INSERT INTO \"effect__properties\" (_file_id, property_guid, component_instance, effect_id, source_file) VALUES (?1, ?2, ?3, ?4, ?5)"),
        params,
    };
    assert(st.params.deep_view() =~= property_row(p.deep_view(), guid@, instance@).params);
    st
}

fn make_component_row(p: &EffectPlace, group: &str, track: &str, c: &EffectComponent) -> (r: Statement)
    ensures
        r.deep_view() == component_row(p.deep_view(), group@, track@, c.deep_view()),
{
    let params: Vec<SqlValue> = vec![
        SqlValue::Integer(p.file_id),
        text_value(c.instance_name.as_str()),
        text_value(c.class_name.as_str()),
        text_value(c.start.as_str()),
        text_value(c.end.as_str()),
        text_value(track),
        text_value(group),
        text_value(p.effect_id.as_str()),
        text_value(p.source_file.as_str()),
    ];
    let st = Statement {
        what: owned("Insert effect component"),
        sql: owned("INSERT INTO \"effect__components\" (_file_id, instance_name, class_name, start, \"end\", track_name, track_group_name, effect_id, source_file) VALUES (?1, ?2, ?3, ?4, ?5, ?6, ?7, ?8, ?9)"),
        params,
    };
    assert(st.params.deep_view() =~= component_row(p.deep_view(), group@, track@, c.deep_view()).params);
    st
}

#[verifier::loop_isolation(false)]
fn add_datums(out: &mut Vec<Statement>, p: &EffectPlace, guid: &str, instance: &str, list: &Vec<Datum>)
    ensures
        final(out).deep_view() == old(out).deep_view() + sql::statements_of(
            list.deep_view(),
            datum_row(p.deep_view(), guid@, instance@),
        ),
{
    let ghost start = out.deep_view();
    let ghost all = list.deep_view();
    let ghost f = datum_row(p.deep_view(), guid@, instance@);
    assert(start + sql::statements_of(all.take(0), f) =~= start);
    let mut i: usize = 0;
    while i < list.len()
        invariant
            i <= list@.len(),
            all == list.deep_view(),
            f == datum_row(p.deep_view(), guid@, instance@),
            out.deep_view() == start + sql::statements_of(all.take(i as int), f),
        decreases list@.len() - i,
    {
        proof {
            sql::lemma_statements_step(all, f, i as int);
        }
        assert(all[i as int] == list@[i as int].deep_view());
        let ghost before = out.deep_view();
        let item = &list[i];
        let st = make_datum_row(p, guid, instance, item);
        out.push(st);
        assert(out.deep_view() =~= before.push(st.deep_view()));
        assert(out.deep_view() =~= start + (sql::statements_of(all.take(i as int), f) + f(
            all[i as int],
        )));
        i += 1;
    }
    assert(all.take(i as int) =~= all);
}

#[verifier::loop_isolation(false)]
fn add_properties(out: &mut Vec<Statement>, p: &EffectPlace, instance: &str, list: &Vec<EffectProperty>)
    ensures
        final(out).deep_view() == old(out).deep_view() + sql::statements_of(
            list.deep_view(),
            property_rows(p.deep_view(), instance@),
        ),
{
    let ghost start = out.deep_view();
    let ghost all = list.deep_view();
    let ghost f = property_rows(p.deep_view(), instance@);
    assert(start + sql::statements_of(all.take(0), f) =~= start);
    let mut i: usize = 0;
    while i < list.len()
        invariant
            i <= list@.len(),
            all == list.deep_view(),
            f == property_rows(p.deep_view(), instance@),
            out.deep_view() == start + sql::statements_of(all.take(i as int), f),
        decreases list@.len() - i,
    {
        proof {
            sql::lemma_statements_step(all, f, i as int);
        }
        assert(all[i as int] == list@[i as int].deep_view());
        let ghost before = out.deep_view();
        let item = &list[i];
        if p.has_properties {
            let st = make_property_row(p, item.guid.as_str(), instance);
            out.push(st);
            assert(out.deep_view() =~= before.push(st.deep_view()));
        }
        if p.has_datums {
            add_datums(out, p, item.guid.as_str(), instance, &item.data);
        }
        assert(out.deep_view() =~= start + (sql::statements_of(all.take(i as int), f) + f(
            all[i as int],
        )));
        i += 1;
    }
    assert(all.take(i as int) =~= all);
}

#[verifier::loop_isolation(false)]
fn add_components(out: &mut Vec<Statement>, p: &EffectPlace, group: &str, track: &str, list: &Vec<EffectComponent>)
    ensures
        final(out).deep_view() == old(out).deep_view() + sql::statements_of(
            list.deep_view(),
            component_rows(p.deep_view(), group@, track@),
        ),
{
    let ghost start = out.deep_view();
    let ghost all = list.deep_view();
    let ghost f = component_rows(p.deep_view(), group@, track@);
    assert(start + sql::statements_of(all.take(0), f) =~= start);
    let mut i: usize = 0;
    while i < list.len()
        invariant
            i <= list@.len(),
            all == list.deep_view(),
            f == component_rows(p.deep_view(), group@, track@),
            out.deep_view() == start + sql::statements_of(all.take(i as int), f),
        decreases list@.len() - i,
    {
        proof {
            sql::lemma_statements_step(all, f, i as int);
        }
        assert(all[i as int] == list@[i as int].deep_view());
        let ghost before = out.deep_view();
        let item = &list[i];
        if p.has_components {
            let st = make_component_row(p, group, track, item);
            out.push(st);
            assert(out.deep_view() =~= before.push(st.deep_view()));
        }
        add_properties(out, p, item.instance_name.as_str(), &item.properties);
        assert(out.deep_view() =~= start + (sql::statements_of(all.take(i as int), f) + f(
            all[i as int],
        )));
        i += 1;
    }
    assert(all.take(i as int) =~= all);
}

#[verifier::loop_isolation(false)]
fn add_tracks(out: &mut Vec<Statement>, p: &EffectPlace, group: &str, list: &Vec<Track>)
    ensures
        final(out).deep_view() == old(out).deep_view() + sql::statements_of(
            list.deep_view(),
            track_rows(p.deep_view(), group@),
        ),
{
    let ghost start = out.deep_view();
    let ghost all = list.deep_view();
    let ghost f = track_rows(p.deep_view(), group@);
    assert(start + sql::statements_of(all.take(0), f) =~= start);
    let mut i: usize = 0;
    while i < list.len()
        invariant
            i <= list@.len(),
            all == list.deep_view(),
            f == track_rows(p.deep_view(), group@),
            out.deep_view() == start + sql::statements_of(all.take(i as int), f),
        decreases list@.len() - i,
    {
        proof {
            sql::lemma_statements_step(all, f, i as int);
        }
        assert(all[i as int] == list@[i as int].deep_view());
        let item = &list[i];
        add_components(out, p, group, item.name.as_str(), &item.components);
        assert(out.deep_view() =~= start + (sql::statements_of(all.take(i as int), f) + f(
            all[i as int],
        )));
        i += 1;
    }
    assert(all.take(i as int) =~= all);
}

#[verifier::loop_isolation(false)]
fn add_track_groups(out: &mut Vec<Statement>, p: &EffectPlace, list: &Vec<TrackGroup>)
    ensures
        final(out).deep_view() == old(out).deep_view() + sql::statements_of(
            list.deep_view(),
            group_rows(p.deep_view()),
        ),
{
    let ghost start = out.deep_view();
    let ghost all = list.deep_view();
    let ghost f = group_rows(p.deep_view());
    assert(start + sql::statements_of(all.take(0), f) =~= start);
    let mut i: usize = 0;
    while i < list.len()
        invariant
            i <= list@.len(),
            all == list.deep_view(),
            f == group_rows(p.deep_view()),
            out.deep_view() == start + sql::statements_of(all.take(i as int), f),
        decreases list@.len() - i,
    {
        proof {
            sql::lemma_statements_step(all, f, i as int);
        }
        assert(all[i as int] == list@[i as int].deep_view());
        let item = &list[i];
        add_tracks(out, p, item.name.as_str(), &item.tracks);
        assert(out.deep_view() =~= start + (sql::statements_of(all.take(i as int), f) + f(
            all[i as int],
        )));
        i += 1;
    }
    assert(all.take(i as int) =~= all);
}

/// The text of an effect file, unless it is blank. It fails where the file has no
/// valid text in memory.
pub fn effect_source(file: &FileEntry) -> (r: Result<Option<String>, String>)
    ensures
        match parsed::text_in(file.deep_view()) {
            None => r matches Err(e) && parsed::tells_no_text(file.deep_view(), e@),
            Some(content) => r matches Ok(source) && source.deep_view() == (if text::trimmed(
                content,
            ).len() == 0 {
                None
            } else {
                Some(content)
            }),
        },
{
    match read_text_content(file) {
        Ok(content) => {
            let trimmed = trim(content.as_str());
            if trimmed.as_str().is_empty() {
                Ok(None)
            } else {
                Ok(Some(content))
            }
        },
        Err(e) => Err(e),
    }
}

/// The rows of an effect, of those tables that are there.
pub fn process_effect(
    effect: &Effect,
    source_file: &str,
    file_id: i64,
    schema: &DiscoveredSchema,
) -> (r: Vec<Statement>)
    ensures
        r.deep_view() == effect_rows(
            effect.deep_view(),
            source_file@,
            file_id,
            schema.deep_view(),
        ),
{
    let place = EffectPlace {
        file_id,
        effect_id: effect.id.clone(),
        source_file: owned(source_file),
        has_components: schema.tables.contains_key("effect__components"),
        has_properties: schema.tables.contains_key("effect__properties"),
        has_datums: schema.tables.contains_key("effect__datums"),
    };
    let mut out: Vec<Statement> = Vec::new();
    if schema.tables.contains_key("effect__effects") {
        let st = make_effect_row(effect, &place);
        out.push(st);
        assert(out.deep_view() =~= seq![st.deep_view()]);
    } else {
        assert(out.deep_view() =~= Seq::<StatementModel>::empty());
    }
    add_track_groups(&mut out, &place, &effect.track_groups);
    out
}

} // verus!
