//! Effect definitions as rows: components with their properties and groups, and
//! modules.

use vstd::prelude::*;
use crate::schema::{DiscoveredSchema, SchemaModel};
use crate::sql;
use crate::sql::{opt_value, text_value, Statement, StatementModel};
use crate::files::FileEntry;
use crate::parsed;
use crate::parsed::read_text_content;
use crate::text;
use crate::text::{owned, text_eq, trim};
use crate::textmap;
use crate::types::{SqlModel, SqlValue};

verus! {

/// A property of a component.
#[derive(Debug)]
pub struct SparkProperty {
    pub guid: String,
    pub name: String,
    pub value_type: String,
    pub specializable: bool,
    pub tooltip: Option<String>,
    pub default_value: Option<String>,
}

/// What a property of a component says.
pub struct SparkPropertyModel {
    pub guid: Seq<char>,
    pub name: Seq<char>,
    pub value_type: Seq<char>,
    pub specializable: bool,
    pub tooltip: Option<Seq<char>>,
    pub default_value: Option<Seq<char>>,
}

impl DeepView for SparkProperty {
    type V = SparkPropertyModel;

    open spec fn deep_view(&self) -> SparkPropertyModel {
        SparkPropertyModel {
            guid: self.guid@,
            name: self.name@,
            value_type: self.value_type@,
            specializable: self.specializable,
            tooltip: self.tooltip.deep_view(),
            default_value: self.default_value.deep_view(),
        }
    }
}

/// A group of properties of a component.
#[derive(Debug)]
pub struct SparkGroup {
    pub guid: String,
    pub name: String,
    pub collapsed: Option<String>,
    pub property_refs: Vec<String>,
}

/// What a group of properties says.
pub struct SparkGroupModel {
    pub guid: Seq<char>,
    pub name: Seq<char>,
    pub collapsed: Option<Seq<char>>,
    pub property_refs: Seq<Seq<char>>,
}

impl DeepView for SparkGroup {
    type V = SparkGroupModel;

    open spec fn deep_view(&self) -> SparkGroupModel {
        SparkGroupModel {
            guid: self.guid@,
            name: self.name@,
            collapsed: self.collapsed.deep_view(),
            property_refs: self.property_refs.deep_view(),
        }
    }
}

/// A component.
#[derive(Debug)]
pub struct SparkComponent {
    pub name: String,
    pub tooltip: Option<String>,
    pub color: Option<String>,
    pub properties: Vec<SparkProperty>,
    pub property_groups: Vec<SparkGroup>,
}

/// What a component says.
pub struct SparkComponentModel {
    pub name: Seq<char>,
    pub tooltip: Option<Seq<char>>,
    pub color: Option<Seq<char>>,
    pub properties: Seq<SparkPropertyModel>,
    pub property_groups: Seq<SparkGroupModel>,
}

impl DeepView for SparkComponent {
    type V = SparkComponentModel;

    open spec fn deep_view(&self) -> SparkComponentModel {
        SparkComponentModel {
            name: self.name@,
            tooltip: self.tooltip.deep_view(),
            color: self.color.deep_view(),
            properties: self.properties.deep_view(),
            property_groups: self.property_groups.deep_view(),
        }
    }
}

/// A module.
#[derive(Debug)]
pub struct SparkModule {
    pub guid: String,
    pub name: String,
    /// The properties that the module sets: identifier and name.
    pub properties: Vec<(String, String)>,
}

/// What a module says.
pub struct SparkModuleModel {
    pub guid: Seq<char>,
    pub name: Seq<char>,
    pub properties: Seq<(Seq<char>, Seq<char>)>,
}

impl DeepView for SparkModule {
    type V = SparkModuleModel;

    open spec fn deep_view(&self) -> SparkModuleModel {
        SparkModuleModel {
            guid: self.guid@,
            name: self.name@,
            properties: self.properties.deep_view(),
        }
    }
}

/// What a definition file holds.
#[derive(Debug)]
pub struct SparkRegistry {
    pub components: Vec<SparkComponent>,
    pub modules: Vec<SparkModule>,
}

/// What a definition file holds.
pub struct SparkRegistryModel {
    pub components: Seq<SparkComponentModel>,
    pub modules: Seq<SparkModuleModel>,
}

impl DeepView for SparkRegistry {
    type V = SparkRegistryModel;

    open spec fn deep_view(&self) -> SparkRegistryModel {
        SparkRegistryModel {
            components: self.components.deep_view(),
            modules: self.modules.deep_view(),
        }
    }
}

/// The row of a component.
pub open spec fn component_rows(file_id: i64) -> spec_fn(SparkComponentModel) -> Seq<
    StatementModel,
> {
    |c: SparkComponentModel|
        seq![
            StatementModel {
                what: "Insert allspark component"@,
                sql: "INSERT OR IGNORE INTO \"allspark__components\" (_file_id, name, tooltip, color) VALUES (?1, ?2, ?3, ?4)"@,
                params: seq![
                    SqlModel::Integer(file_id as int),
                    SqlModel::Text(c.name),
                    sql::optional_value(c.tooltip),
                    sql::optional_value(c.color),
                ],
            },
        ]
}

/// The row of a property.
pub open spec fn property_row(file_id: i64, component: Seq<char>) -> spec_fn(SparkPropertyModel) -> Seq<
    StatementModel,
> {
    |p: SparkPropertyModel|
        seq![
            StatementModel {
                what: "Insert allspark property"@,
                sql: "INSERT OR IGNORE INTO \"allspark__properties\" (_file_id, guid, component_name, name, type_name, specializable, tooltip, default_value) VALUES (?1, ?2, ?3, ?4, ?5, ?6, ?7, ?8)"@,
                params: seq![
                    SqlModel::Integer(file_id as int),
                    SqlModel::Text(p.guid),
                    SqlModel::Text(component),
                    SqlModel::Text(p.name),
                    SqlModel::Text(p.value_type),
                    SqlModel::Integer(if p.specializable { 1 } else { 0 }),
                    sql::optional_value(p.tooltip),
                    sql::optional_value(p.default_value),
                ],
            },
        ]
}

/// The rows of the properties of a component.
pub open spec fn property_rows(file_id: i64) -> spec_fn(SparkComponentModel) -> Seq<StatementModel> {
    |c: SparkComponentModel| sql::statements_of(c.properties, property_row(file_id, c.name))
}

/// The rows of the first `n` groups of a component, each with its place.
pub open spec fn first_group_rows(file_id: i64, c: SparkComponentModel, n: int) -> Seq<
    StatementModel,
>
    decreases n,
{
    if n <= 0 {
        Seq::empty()
    } else {
        let g = c.property_groups[n - 1];
        first_group_rows(file_id, c, n - 1).push(
            StatementModel {
                what: "Insert allspark property group"@,
                sql: "INSERT OR IGNORE INTO \"allspark__property_groups\" (_file_id, guid, component_name, name, collapsed, sort_order) VALUES (?1, ?2, ?3, ?4, ?5, ?6)"@,
                params: seq![
                    SqlModel::Integer(file_id as int),
                    SqlModel::Text(g.guid),
                    SqlModel::Text(c.name),
                    SqlModel::Text(g.name),
                    sql::optional_value(g.collapsed),
                    SqlModel::Integer((n - 1) as i64 as int),
                ],
            },
        )
    }
}

/// The rows of the groups of a component.
pub open spec fn group_rows(file_id: i64) -> spec_fn(SparkComponentModel) -> Seq<StatementModel> {
    |c: SparkComponentModel| first_group_rows(file_id, c, c.property_groups.len() as int)
}

/// The rows of the first `n` members of a group, each with its place.
pub open spec fn first_member_rows(
    file_id: i64,
    component: Seq<char>,
    g: SparkGroupModel,
    n: int,
) -> Seq<StatementModel>
    decreases n,
{
    if n <= 0 {
        Seq::empty()
    } else {
        first_member_rows(file_id, component, g, n - 1).push(
            StatementModel {
                what: "Insert allspark property group ref"@,
                sql: "INSERT OR IGNORE INTO \"allspark__property_group_refs\" (_file_id, group_guid, component_name, property_guid, sort_order) VALUES (?1, ?2, ?3, ?4, ?5)"@,
                params: seq![
                    SqlModel::Integer(file_id as int),
                    SqlModel::Text(g.guid),
                    SqlModel::Text(component),
                    SqlModel::Text(g.property_refs[n - 1]),
                    SqlModel::Integer((n - 1) as i64 as int),
                ],
            },
        )
    }
}

/// The rows of the members of a group.
pub open spec fn member_rows(file_id: i64, component: Seq<char>) -> spec_fn(SparkGroupModel) -> Seq<
    StatementModel,
> {
    |g: SparkGroupModel|
        first_member_rows(file_id, component, g, g.property_refs.len() as int)
}

/// The rows of the members of all groups of a component.
pub open spec fn all_member_rows(file_id: i64) -> spec_fn(SparkComponentModel) -> Seq<
    StatementModel,
> {
    |c: SparkComponentModel| sql::statements_of(c.property_groups, member_rows(file_id, c.name))
}

/// The row of a module.
pub open spec fn module_rows(file_id: i64) -> spec_fn(SparkModuleModel) -> Seq<StatementModel> {
    |m: SparkModuleModel|
        seq![
            StatementModel {
                what: "Insert allspark module"@,
                sql: "INSERT OR IGNORE INTO \"allspark__modules\" (_file_id, guid, name) VALUES (?1, ?2, ?3)"@,
                params: seq![
                    SqlModel::Integer(file_id as int),
                    SqlModel::Text(m.guid),
                    SqlModel::Text(m.name),
                ],
            },
        ]
}

/// The row of a property that a module sets.
pub open spec fn module_property_row(file_id: i64, module: Seq<char>) -> spec_fn(
    (Seq<char>, Seq<char>),
) -> Seq<StatementModel> {
    |p: (Seq<char>, Seq<char>)|
        seq![
            StatementModel {
                what: "Insert allspark module property"@,
                sql: "INSERT OR IGNORE INTO \"allspark__module_properties\" (_file_id, module_guid, property_guid, property_name) VALUES (?1, ?2, ?3, ?4)"@,
                params: seq![
                    SqlModel::Integer(file_id as int),
                    SqlModel::Text(module),
                    SqlModel::Text(p.0),
                    SqlModel::Text(p.1),
                ],
            },
        ]
}

/// The rows of the properties that a module sets.
pub open spec fn module_property_rows(file_id: i64) -> spec_fn(SparkModuleModel) -> Seq<
    StatementModel,
> {
    |m: SparkModuleModel| sql::statements_of(m.properties, module_property_row(file_id, m.guid))
}

/// The statements, if the table is there.
pub open spec fn if_table(schema: SchemaModel, table: Seq<char>, s: Seq<StatementModel>) -> Seq<
    StatementModel,
> {
    if textmap::has_key(schema.tables, table) {
        s
    } else {
        Seq::empty()
    }
}

/// The rows of a definition file.
pub open spec fn spark_rows(r: SparkRegistryModel, file_id: i64, schema: SchemaModel) -> Seq<
    StatementModel,
> {
    if_table(
        schema,
        "allspark__components"@,
        sql::statements_of(r.components, component_rows(file_id)),
    ) + if_table(
        schema,
        "allspark__properties"@,
        sql::statements_of(r.components, property_rows(file_id)),
    ) + if_table(
        schema,
        "allspark__property_groups"@,
        sql::statements_of(r.components, group_rows(file_id)),
    ) + if_table(
        schema,
        "allspark__property_group_refs"@,
        sql::statements_of(r.components, all_member_rows(file_id)),
    ) + if_table(
        schema,
        "allspark__modules"@,
        sql::statements_of(r.modules, module_rows(file_id)),
    ) + if_table(
        schema,
        "allspark__module_properties"@,
        sql::statements_of(r.modules, module_property_rows(file_id)),
    )
}

#[verifier::loop_isolation(false)]
fn add_components(out: &mut Vec<Statement>, list: &Vec<SparkComponent>, file_id: i64)
    ensures
        final(out).deep_view() == old(out).deep_view() + sql::statements_of(
            list.deep_view(),
            component_rows(file_id),
        ),
{
    let ghost start = out.deep_view();
    let ghost all = list.deep_view();
    let ghost f = component_rows(file_id);
    assert(start + sql::statements_of(all.take(0), f) =~= start);
    let mut i: usize = 0;
    while i < list.len()
        invariant
            i <= list@.len(),
            all == list.deep_view(),
            f == component_rows(file_id),
            out.deep_view() == start + sql::statements_of(all.take(i as int), f),
        decreases list@.len() - i,
    {
        proof {
            sql::lemma_statements_step(all, f, i as int);
        }
        assert(all[i as int] == list@[i as int].deep_view());
        let ghost before = out.deep_view();
        let item = &list[i];
        let params: Vec<SqlValue> = vec![
            SqlValue::Integer(file_id),
            text_value(item.name.as_str()),
            opt_value(&item.tooltip),
            opt_value(&item.color),
        ];
        let st = Statement {
            what: owned("Insert allspark component"),
            sql: owned("INSERT OR IGNORE INTO \"allspark__components\" (_file_id, name, tooltip, color) VALUES (?1, ?2, ?3, ?4)"),
            params,
        };
        assert(st.params.deep_view() =~= f(all[i as int])[0].params);
        out.push(st);
        assert(out.deep_view() =~= before.push(st.deep_view()));
        assert(out.deep_view() =~= start + (sql::statements_of(all.take(i as int), f) + f(
            all[i as int],
        )));
        i += 1;
    }
    assert(all.take(i as int) =~= all);
}

#[verifier::loop_isolation(false)]
fn add_component_properties(out: &mut Vec<Statement>, component: &str, list: &Vec<SparkProperty>, file_id: i64)
    ensures
        final(out).deep_view() == old(out).deep_view() + sql::statements_of(
            list.deep_view(),
            property_row(file_id, component@),
        ),
{
    let ghost start = out.deep_view();
    let ghost all = list.deep_view();
    let ghost f = property_row(file_id, component@);
    assert(start + sql::statements_of(all.take(0), f) =~= start);
    let mut i: usize = 0;
    while i < list.len()
        invariant
            i <= list@.len(),
            all == list.deep_view(),
            f == property_row(file_id, component@),
            out.deep_view() == start + sql::statements_of(all.take(i as int), f),
        decreases list@.len() - i,
    {
        proof {
            sql::lemma_statements_step(all, f, i as int);
        }
        assert(all[i as int] == list@[i as int].deep_view());
        let ghost before = out.deep_view();
        let item = &list[i];
        let params: Vec<SqlValue> = vec![
            SqlValue::Integer(file_id),
            text_value(item.guid.as_str()),
            text_value(component),
            text_value(item.name.as_str()),
            text_value(item.value_type.as_str()),
            SqlValue::Integer(if item.specializable { 1 } else { 0 }),
            opt_value(&item.tooltip),
            opt_value(&item.default_value),
        ];
        let st = Statement {
            what: owned("Insert allspark property"),
            sql: owned("INSERT OR IGNORE INTO \"allspark__properties\" (_file_id, guid, component_name, name, type_name, specializable, tooltip, default_value) VALUES (?1, ?2, ?3, ?4, ?5, ?6, ?7, ?8)"),
            params,
        };
        assert(st.params.deep_view() =~= f(all[i as int])[0].params);
        out.push(st);
        assert(out.deep_view() =~= before.push(st.deep_view()));
        assert(out.deep_view() =~= start + (sql::statements_of(all.take(i as int), f) + f(
            all[i as int],
        )));
        i += 1;
    }
    assert(all.take(i as int) =~= all);
}

#[verifier::loop_isolation(false)]
fn add_properties(out: &mut Vec<Statement>, list: &Vec<SparkComponent>, file_id: i64)
    ensures
        final(out).deep_view() == old(out).deep_view() + sql::statements_of(
            list.deep_view(),
            property_rows(file_id),
        ),
{
    let ghost start = out.deep_view();
    let ghost all = list.deep_view();
    let ghost f = property_rows(file_id);
    assert(start + sql::statements_of(all.take(0), f) =~= start);
    let mut i: usize = 0;
    while i < list.len()
        invariant
            i <= list@.len(),
            all == list.deep_view(),
            f == property_rows(file_id),
            out.deep_view() == start + sql::statements_of(all.take(i as int), f),
        decreases list@.len() - i,
    {
        proof {
            sql::lemma_statements_step(all, f, i as int);
        }
        assert(all[i as int] == list@[i as int].deep_view());
        let item = &list[i];
        add_component_properties(out, item.name.as_str(), &item.properties, file_id);
        assert(out.deep_view() =~= start + (sql::statements_of(all.take(i as int), f) + f(
            all[i as int],
        )));
        i += 1;
    }
    assert(all.take(i as int) =~= all);
}

#[verifier::loop_isolation(false)]
fn add_component_groups(out: &mut Vec<Statement>, c: &SparkComponent, file_id: i64)
    ensures
        final(out).deep_view() == old(out).deep_view() + first_group_rows(file_id, c.deep_view(), c.property_groups@.len() as int),
{
    let ghost start = out.deep_view();
    assert(start + first_group_rows(file_id, c.deep_view(), 0) =~= start);
    let mut i: usize = 0;
    while i < c.property_groups.len()
        invariant
            i <= c.property_groups@.len(),
            out.deep_view() == start + first_group_rows(file_id, c.deep_view(), i as int),
        decreases c.property_groups@.len() - i,
    {
        let ghost before = out.deep_view();
        let item = &c.property_groups[i];
        assert(c.deep_view().property_groups[i as int] == item.deep_view());
        let place: usize = i;
        let params: Vec<SqlValue> = vec![
            SqlValue::Integer(file_id),
            text_value(item.guid.as_str()),
            text_value(c.name.as_str()),
            text_value(item.name.as_str()),
            opt_value(&item.collapsed),
            SqlValue::Integer(place as i64),
        ];
        let st = Statement {
            what: owned("Insert allspark property group"),
            sql: owned("INSERT OR IGNORE INTO \"allspark__property_groups\" (_file_id, guid, component_name, name, collapsed, sort_order) VALUES (?1, ?2, ?3, ?4, ?5, ?6)"),
            params,
        };
        assert(st.params.deep_view() =~= first_group_rows(file_id, c.deep_view(), i + 1).last().params);
        out.push(st);
        assert(out.deep_view() =~= before.push(st.deep_view()));
        assert(out.deep_view() =~= start + first_group_rows(file_id, c.deep_view(), i + 1));
        i += 1;
    }
}

#[verifier::loop_isolation(false)]
fn add_groups(out: &mut Vec<Statement>, list: &Vec<SparkComponent>, file_id: i64)
    ensures
        final(out).deep_view() == old(out).deep_view() + sql::statements_of(
            list.deep_view(),
            group_rows(file_id),
        ),
{
    let ghost start = out.deep_view();
    let ghost all = list.deep_view();
    let ghost f = group_rows(file_id);
    assert(start + sql::statements_of(all.take(0), f) =~= start);
    let mut i: usize = 0;
    while i < list.len()
        invariant
            i <= list@.len(),
            all == list.deep_view(),
            f == group_rows(file_id),
            out.deep_view() == start + sql::statements_of(all.take(i as int), f),
        decreases list@.len() - i,
    {
        proof {
            sql::lemma_statements_step(all, f, i as int);
        }
        assert(all[i as int] == list@[i as int].deep_view());
        let item = &list[i];
        add_component_groups(out, item, file_id);
        assert(out.deep_view() =~= start + (sql::statements_of(all.take(i as int), f) + f(
            all[i as int],
        )));
        i += 1;
    }
    assert(all.take(i as int) =~= all);
}

#[verifier::loop_isolation(false)]
fn add_group_members(out: &mut Vec<Statement>, component: &str, g: &SparkGroup, file_id: i64)
    ensures
        final(out).deep_view() == old(out).deep_view() + first_member_rows(file_id, component@, g.deep_view(), g.property_refs@.len() as int),
{
    let ghost start = out.deep_view();
    assert(start + first_member_rows(file_id, component@, g.deep_view(), 0) =~= start);
    let mut i: usize = 0;
    while i < g.property_refs.len()
        invariant
            i <= g.property_refs@.len(),
            out.deep_view() == start + first_member_rows(file_id, component@, g.deep_view(), i as int),
        decreases g.property_refs@.len() - i,
    {
        let ghost before = out.deep_view();
        let member = &g.property_refs[i];
        assert(g.deep_view().property_refs[i as int] == member@);
        let place: usize = i;
        let params: Vec<SqlValue> = vec![
            SqlValue::Integer(file_id),
            text_value(g.guid.as_str()),
            text_value(component),
            text_value(member.as_str()),
            SqlValue::Integer(place as i64),
        ];
        let st = Statement {
            what: owned("Insert allspark property group ref"),
            sql: owned("INSERT OR IGNORE INTO \"allspark__property_group_refs\" (_file_id, group_guid, component_name, property_guid, sort_order) VALUES (?1, ?2, ?3, ?4, ?5)"),
            params,
        };
        assert(st.params.deep_view() =~= first_member_rows(file_id, component@, g.deep_view(), i + 1).last().params);
        out.push(st);
        assert(out.deep_view() =~= before.push(st.deep_view()));
        assert(out.deep_view() =~= start + first_member_rows(file_id, component@, g.deep_view(), i + 1));
        i += 1;
    }
}

#[verifier::loop_isolation(false)]
fn add_component_members(out: &mut Vec<Statement>, component: &str, list: &Vec<SparkGroup>, file_id: i64)
    ensures
        final(out).deep_view() == old(out).deep_view() + sql::statements_of(
            list.deep_view(),
            member_rows(file_id, component@),
        ),
{
    let ghost start = out.deep_view();
    let ghost all = list.deep_view();
    let ghost f = member_rows(file_id, component@);
    assert(start + sql::statements_of(all.take(0), f) =~= start);
    let mut i: usize = 0;
    while i < list.len()
        invariant
            i <= list@.len(),
            all == list.deep_view(),
            f == member_rows(file_id, component@),
            out.deep_view() == start + sql::statements_of(all.take(i as int), f),
        decreases list@.len() - i,
    {
        proof {
            sql::lemma_statements_step(all, f, i as int);
        }
        assert(all[i as int] == list@[i as int].deep_view());
        let item = &list[i];
        add_group_members(out, component, item, file_id);
        assert(out.deep_view() =~= start + (sql::statements_of(all.take(i as int), f) + f(
            all[i as int],
        )));
        i += 1;
    }
    assert(all.take(i as int) =~= all);
}

#[verifier::loop_isolation(false)]
fn add_members(out: &mut Vec<Statement>, list: &Vec<SparkComponent>, file_id: i64)
    ensures
        final(out).deep_view() == old(out).deep_view() + sql::statements_of(
            list.deep_view(),
            all_member_rows(file_id),
        ),
{
    let ghost start = out.deep_view();
    let ghost all = list.deep_view();
    let ghost f = all_member_rows(file_id);
    assert(start + sql::statements_of(all.take(0), f) =~= start);
    let mut i: usize = 0;
    while i < list.len()
        invariant
            i <= list@.len(),
            all == list.deep_view(),
            f == all_member_rows(file_id),
            out.deep_view() == start + sql::statements_of(all.take(i as int), f),
        decreases list@.len() - i,
    {
        proof {
            sql::lemma_statements_step(all, f, i as int);
        }
        assert(all[i as int] == list@[i as int].deep_view());
        let item = &list[i];
        add_component_members(out, item.name.as_str(), &item.property_groups, file_id);
        assert(out.deep_view() =~= start + (sql::statements_of(all.take(i as int), f) + f(
            all[i as int],
        )));
        i += 1;
    }
    assert(all.take(i as int) =~= all);
}

#[verifier::loop_isolation(false)]
fn add_modules(out: &mut Vec<Statement>, list: &Vec<SparkModule>, file_id: i64)
    ensures
        final(out).deep_view() == old(out).deep_view() + sql::statements_of(
            list.deep_view(),
            module_rows(file_id),
        ),
{
    let ghost start = out.deep_view();
    let ghost all = list.deep_view();
    let ghost f = module_rows(file_id);
    assert(start + sql::statements_of(all.take(0), f) =~= start);
    let mut i: usize = 0;
    while i < list.len()
        invariant
            i <= list@.len(),
            all == list.deep_view(),
            f == module_rows(file_id),
            out.deep_view() == start + sql::statements_of(all.take(i as int), f),
        decreases list@.len() - i,
    {
        proof {
            sql::lemma_statements_step(all, f, i as int);
        }
        assert(all[i as int] == list@[i as int].deep_view());
        let ghost before = out.deep_view();
        let item = &list[i];
        let params: Vec<SqlValue> = vec![
            SqlValue::Integer(file_id),
            text_value(item.guid.as_str()),
            text_value(item.name.as_str()),
        ];
        let st = Statement {
            what: owned("Insert allspark module"),
            sql: owned("INSERT OR IGNORE INTO \"allspark__modules\" (_file_id, guid, name) VALUES (?1, ?2, ?3)"),
            params,
        };
        assert(st.params.deep_view() =~= f(all[i as int])[0].params);
        out.push(st);
        assert(out.deep_view() =~= before.push(st.deep_view()));
        assert(out.deep_view() =~= start + (sql::statements_of(all.take(i as int), f) + f(
            all[i as int],
        )));
        i += 1;
    }
    assert(all.take(i as int) =~= all);
}

#[verifier::loop_isolation(false)]
fn add_one_module_properties(out: &mut Vec<Statement>, module: &str, list: &Vec<(String, String)>, file_id: i64)
    ensures
        final(out).deep_view() == old(out).deep_view() + sql::statements_of(
            list.deep_view(),
            module_property_row(file_id, module@),
        ),
{
    let ghost start = out.deep_view();
    let ghost all = list.deep_view();
    let ghost f = module_property_row(file_id, module@);
    assert(start + sql::statements_of(all.take(0), f) =~= start);
    let mut i: usize = 0;
    while i < list.len()
        invariant
            i <= list@.len(),
            all == list.deep_view(),
            f == module_property_row(file_id, module@),
            out.deep_view() == start + sql::statements_of(all.take(i as int), f),
        decreases list@.len() - i,
    {
        proof {
            sql::lemma_statements_step(all, f, i as int);
        }
        assert(all[i as int] == list@[i as int].deep_view());
        let ghost before = out.deep_view();
        let item = &list[i];
        let params: Vec<SqlValue> = vec![
            SqlValue::Integer(file_id),
            text_value(module),
            text_value(item.0.as_str()),
            text_value(item.1.as_str()),
        ];
        let st = Statement {
            what: owned("Insert allspark module property"),
            sql: owned("INSERT OR IGNORE INTO \"allspark__module_properties\" (_file_id, module_guid, property_guid, property_name) VALUES (?1, ?2, ?3, ?4)"),
            params,
        };
        assert(st.params.deep_view() =~= f(all[i as int])[0].params);
        out.push(st);
        assert(out.deep_view() =~= before.push(st.deep_view()));
        assert(out.deep_view() =~= start + (sql::statements_of(all.take(i as int), f) + f(
            all[i as int],
        )));
        i += 1;
    }
    assert(all.take(i as int) =~= all);
}

#[verifier::loop_isolation(false)]
fn add_module_properties(out: &mut Vec<Statement>, list: &Vec<SparkModule>, file_id: i64)
    ensures
        final(out).deep_view() == old(out).deep_view() + sql::statements_of(
            list.deep_view(),
            module_property_rows(file_id),
        ),
{
    let ghost start = out.deep_view();
    let ghost all = list.deep_view();
    let ghost f = module_property_rows(file_id);
    assert(start + sql::statements_of(all.take(0), f) =~= start);
    let mut i: usize = 0;
    while i < list.len()
        invariant
            i <= list@.len(),
            all == list.deep_view(),
            f == module_property_rows(file_id),
            out.deep_view() == start + sql::statements_of(all.take(i as int), f),
        decreases list@.len() - i,
    {
        proof {
            sql::lemma_statements_step(all, f, i as int);
        }
        assert(all[i as int] == list@[i as int].deep_view());
        let item = &list[i];
        add_one_module_properties(out, item.guid.as_str(), &item.properties, file_id);
        assert(out.deep_view() =~= start + (sql::statements_of(all.take(i as int), f) + f(
            all[i as int],
        )));
        i += 1;
    }
    assert(all.take(i as int) =~= all);
}

/// What a definition file is to be read as.
#[derive(Debug)]
pub enum SparkSource {
    Nothing,
    Components(String),
    Modules(String),
}

/// What a definition file is to be read as: `xcd` files define components, `xmd`
/// files define modules. It fails where the file has no valid text in memory.
pub fn spark_source(file: &FileEntry) -> (r: Result<SparkSource, String>)
    ensures
        match parsed::text_in(file.deep_view()) {
            None => r matches Err(e) && parsed::tells_no_text(file.deep_view(), e@),
            Some(content) => {
                let ext = parsed::extension_in(file.deep_view());
                if text::trimmed(content).len() == 0 {
                    r == Ok::<SparkSource, String>(SparkSource::Nothing)
                } else if ext == Some("xcd"@) {
                    r matches Ok(SparkSource::Components(c)) && c@ == content
                } else if ext == Some("xmd"@) {
                    r matches Ok(SparkSource::Modules(c)) && c@ == content
                } else {
                    r == Ok::<SparkSource, String>(SparkSource::Nothing)
                }
            },
        },
{
    let content = match read_text_content(file) {
        Ok(c) => c,
        Err(e) => {
            return Err(e);
        },
    };
    let trimmed = trim(content.as_str());
    if trimmed.as_str().is_empty() {
        return Ok(SparkSource::Nothing);
    }
    match file.extension() {
        Some(ext) => {
            if text_eq(ext.as_str(), "xcd") {
                Ok(SparkSource::Components(content))
            } else if text_eq(ext.as_str(), "xmd") {
                Ok(SparkSource::Modules(content))
            } else {
                Ok(SparkSource::Nothing)
            }
        },
        None => Ok(SparkSource::Nothing),
    }
}

/// The rows of a definition file, of those tables that are there.
pub fn process_allspark(registry: &SparkRegistry, file_id: i64, schema: &DiscoveredSchema) -> (r:
    Vec<Statement>)
    ensures
        r.deep_view() == spark_rows(registry.deep_view(), file_id, schema.deep_view()),
{
    let mut out: Vec<Statement> = Vec::new();
    if schema.tables.contains_key("allspark__components") {
        add_components(&mut out, &registry.components, file_id);
    }
    if schema.tables.contains_key("allspark__properties") {
        add_properties(&mut out, &registry.components, file_id);
    }
    if schema.tables.contains_key("allspark__property_groups") {
        add_groups(&mut out, &registry.components, file_id);
    }
    if schema.tables.contains_key("allspark__property_group_refs") {
        add_members(&mut out, &registry.components, file_id);
    }
    if schema.tables.contains_key("allspark__modules") {
        add_modules(&mut out, &registry.modules, file_id);
    }
    if schema.tables.contains_key("allspark__module_properties") {
        add_module_properties(&mut out, &registry.modules, file_id);
    }
    assert(out.deep_view() =~= spark_rows(registry.deep_view(), file_id, schema.deep_view()));
    out
}

} // verus!
