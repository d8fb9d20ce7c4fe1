//! Parsed content as rows of tables.

use vstd::prelude::*;
use crate::schema::{DiscoveredSchema, FkConstraint, FkModel, JunctionModel, PkStrategy, TableModel,
    TableSchema};
use crate::sql;
use crate::sql::{insert_statement, link_statement};
use crate::text;
use crate::text::{eq_ignore_case, owned, text_eq, to_ascii_lower};
use crate::textmap;
use crate::textmap::TextMap;
use crate::types::{SqlModel, SqlValue};

verus! {

/// Values that stand for no reference.
pub open spec fn refers_to_nothing(value: Seq<char>) -> bool {
    value.len() == 0 || value == "00000000-0000-0000-0000-000000000000"@ || value
        == "ls::TranslatedStringRepository::s_HandleUnknown"@ || value == "EMPTY"@ || value
        == "NO_LEVELTEMPLATE_TRANSFER"@
}

/// Whether a value stands for a reference.
pub fn is_reference(value: &str) -> (r: bool)
    ensures
        r == !refers_to_nothing(value@),
{
    !(value.is_empty() || text_eq(value, "00000000-0000-0000-0000-000000000000") || text_eq(
        value,
        "ls::TranslatedStringRepository::s_HandleUnknown",
    ) || text_eq(value, "EMPTY") || text_eq(value, "NO_LEVELTEMPLATE_TRANSFER"))
}

/// The value, where it stands for a reference.
pub fn coerce_fk_null(value: &str) -> (r: Option<String>)
    ensures
        r.deep_view() == (if refers_to_nothing(value@) {
            None
        } else {
            Some(value@)
        }),
{
    if is_reference(value) {
        Some(owned(value))
    } else {
        None
    }
}

/// A reference as it is stored.
pub open spec fn reference_value(value: Seq<char>) -> SqlModel {
    if refers_to_nothing(value) {
        SqlModel::Null
    } else {
        SqlModel::Text(value)
    }
}

/// The reference as it is stored.
pub fn store_reference(value: &str) -> (r: SqlValue)
    ensures
        r.deep_view() == reference_value(value@),
{
    match coerce_fk_null(value) {
        Some(v) => SqlValue::Text(v),
        None => SqlValue::Null,
    }
}

/// The columns that refer to other tables.
pub open spec fn sources_of(fks: Seq<FkModel>) -> Seq<Seq<char>> {
    Seq::new(fks.len(), |i: int| fks[i].source_column)
}

#[verifier::loop_isolation(false)]
pub fn list_sources(fks: &Vec<FkConstraint>) -> (r: Vec<String>)
    ensures
        r.deep_view() == sources_of(fks.deep_view()),
{
    let ghost want = sources_of(fks.deep_view());
    let mut r: Vec<String> = Vec::new();
    let mut i: usize = 0;
    while i < fks.len()
        invariant
            i <= fks@.len(),
            r.deep_view() == want.take(i as int),
        decreases fks@.len() - i,
    {
        assert(fks.deep_view()[i as int] == fks@[i as int].deep_view());
        r.push(fks[i].source_column.clone());
        i += 1;
        assert(r.deep_view() =~= want.take(i as int));
    }
    assert(want.take(i as int) =~= want);
    r
}

/// Names in lower case.
pub open spec fn all_lowered(names: Seq<Seq<char>>) -> Seq<Seq<char>> {
    Seq::new(names.len(), |i: int| text::ascii_lowered(names[i]))
}

#[verifier::loop_isolation(false)]
fn lower_all(names: &Vec<String>) -> (r: Vec<String>)
    ensures
        r.deep_view() == all_lowered(names.deep_view()),
{
    let ghost want = all_lowered(names.deep_view());
    let mut r: Vec<String> = Vec::new();
    let mut i: usize = 0;
    while i < names.len()
        invariant
            i <= names@.len(),
            r.deep_view() == want.take(i as int),
        decreases names@.len() - i,
    {
        assert(names.deep_view()[i as int] == names@[i as int]@);
        r.push(to_ascii_lower(names[i].as_str()));
        i += 1;
        assert(r.deep_view() =~= want.take(i as int));
    }
    assert(want.take(i as int) =~= want);
    r
}

// ---------------------------------------------------------------------------
// Insert plans
// ---------------------------------------------------------------------------

/// How rows of a table are inserted.
#[derive(Debug)]
pub struct TableInsertPlan {
    pub sql: String,
    /// The place of each column, by its name in lower case.
    pub col_map: TextMap<usize>,
    pub file_id_idx: usize,
    pub source_id_idx: Option<usize>,
    pub pk_idx: Option<usize>,
    /// The key column in lower case.
    pub pk_col_lower: String,
    pub pk_strategy: PkStrategy,
    /// The columns that refer to other tables, in lower case.
    pub fk_cols: Vec<String>,
    /// The number of values in a row.
    pub width: usize,
}

/// What an insert plan says.
pub struct PlanModel {
    pub sql: Seq<char>,
    pub col_map: Seq<(Seq<char>, usize)>,
    pub file_id_idx: usize,
    pub source_id_idx: Option<usize>,
    pub pk_idx: Option<usize>,
    pub pk_col_lower: Seq<char>,
    pub pk_strategy: PkStrategy,
    pub fk_cols: Seq<Seq<char>>,
    pub width: usize,
}

impl DeepView for TableInsertPlan {
    type V = PlanModel;

    open spec fn deep_view(&self) -> PlanModel {
        PlanModel {
            sql: self.sql@,
            col_map: self.col_map.deep_view(),
            file_id_idx: self.file_id_idx,
            source_id_idx: self.source_id_idx,
            pk_idx: self.pk_idx,
            pk_col_lower: self.pk_col_lower@,
            pk_strategy: self.pk_strategy,
            fk_cols: self.fk_cols.deep_view(),
            width: self.width,
        }
    }
}

/// The columns before the data columns: the key, the file and the source. A
/// table without a natural key has neither key nor source.
pub open spec fn leading_columns(t: TableModel) -> Seq<Seq<char>> {
    let file = if t.has_file_id {
        seq!["_file_id"@]
    } else {
        Seq::empty()
    };
    if t.pk_strategy == PkStrategy::Rowid {
        file
    } else {
        seq![t.pk_strategy.key_column()] + file + seq!["_SourceID"@]
    }
}

/// Whether a data column is the key column of the table.
pub open spec fn is_key_column(t: TableModel, column: Seq<char>) -> bool {
    t.pk_strategy != PkStrategy::Rowid && text::ascii_lowered(column) == text::ascii_lowered(
        t.pk_strategy.key_column(),
    )
}

/// The columns of a plan and their places, after the first `k` data columns.
pub open spec fn plan_columns(t: TableModel, k: int) -> (Seq<Seq<char>>, Seq<(Seq<char>, usize)>)
    decreases k,
{
    if k <= 0 {
        (
            leading_columns(t),
            if t.pk_strategy == PkStrategy::Rowid {
                Seq::empty()
            } else {
                seq![(text::ascii_lowered(t.pk_strategy.key_column()), 0usize)]
            },
        )
    } else {
        let before = plan_columns(t, k - 1);
        let name = t.columns[k - 1].name;
        if is_key_column(t, name) {
            before
        } else {
            (
                before.0.push(name),
                textmap::with_value(before.1, text::ascii_lowered(name), before.0.len() as usize),
            )
        }
    }
}

/// The insert plan of a table.
pub open spec fn plan_of(name: Seq<char>, t: TableModel) -> PlanModel {
    let cols = plan_columns(t, t.columns.len() as int);
    let keyed = t.pk_strategy != PkStrategy::Rowid;
    PlanModel {
        sql: sql::insert_sql(name, cols.0),
        col_map: cols.1,
        file_id_idx: if keyed {
            1
        } else {
            0
        },
        source_id_idx: if !keyed {
            None
        } else if t.has_file_id {
            Some(2)
        } else {
            Some(1)
        },
        pk_idx: if keyed {
            Some(0)
        } else {
            None
        },
        pk_col_lower: text::ascii_lowered(t.pk_strategy.key_column()),
        pk_strategy: t.pk_strategy,
        fk_cols: all_lowered(sources_of(t.fk_constraints)),
        width: cols.0.len() as usize,
    }
}

fn list_leading(t: &TableSchema) -> (r: Vec<String>)
    ensures
        r.deep_view() == leading_columns(t.deep_view()),
{
    let keyed = t.pk_strategy != PkStrategy::Rowid;
    let mut r: Vec<String> = Vec::new();
    if keyed {
        r.push(owned(t.pk_strategy.pk_column()));
    }
    if t.has_file_id {
        r.push(owned("_file_id"));
    }
    if keyed {
        r.push(owned("_SourceID"));
    }
    assert(r.deep_view() =~= leading_columns(t.deep_view()));
    r
}

/// The insert plan of a table.
#[verifier::loop_isolation(false)]
pub fn build_insert_plan(table_name: &str, t: &TableSchema) -> (r: TableInsertPlan)
    ensures
        r.deep_view() == plan_of(table_name@, t.deep_view()),
        places_within(r.deep_view().col_map, r.width as int),
{
    let ghost model = t.deep_view();
    let keyed = t.pk_strategy != PkStrategy::Rowid;
    let pk_lower = to_ascii_lower(t.pk_strategy.pk_column());
    let mut names = list_leading(t);
    let mut col_map: TextMap<usize> = TextMap::new();
    if keyed {
        col_map.entries.push((pk_lower.clone(), 0));
    }
    assert(col_map.deep_view() =~= plan_columns(model, 0).1);
    assert(names.deep_view().len() == names@.len());
    let mut i: usize = 0;
    while i < t.columns.len()
        invariant
            i <= t.columns@.len(),
            model == t.deep_view(),
            keyed == (t.pk_strategy != PkStrategy::Rowid),
            plan_columns(model, i as int) == (names.deep_view(), col_map.deep_view()),
            places_within(col_map.deep_view(), names@.len() as int),
            keyed ==> names@.len() > 0,
        decreases t.columns@.len() - i,
    {
        let col = &t.columns[i];
        assert(model.columns[i as int] == t.columns@[i as int].deep_view());
        let is_key = keyed && eq_ignore_case(col.name.as_str(), t.pk_strategy.pk_column());
        if !is_key {
            let ghost before = names.deep_view();
            let ghost placed = col_map.deep_view();
            let n: usize = names.len();
            assert(before.len() == n);
            let lower = to_ascii_lower(col.name.as_str());
            proof {
                lemma_places_grow(placed, lower@, n);
            }
            col_map.insert(lower, n);
            names.push(col.name.clone());
            assert(names.deep_view() =~= before.push(col.name@));
        }
        i += 1;
    }
    let sources = list_sources(&t.fk_constraints);
    let fk_cols = lower_all(&sources);
    let sql = insert_statement(table_name, &names);
    TableInsertPlan {
        sql,
        col_map,
        file_id_idx: if keyed {
            1
        } else {
            0
        },
        source_id_idx: if !keyed {
            None
        } else if t.has_file_id {
            Some(2)
        } else {
            Some(1)
        },
        pk_idx: if keyed {
            Some(0)
        } else {
            None
        },
        pk_col_lower: pk_lower,
        pk_strategy: t.pk_strategy,
        fk_cols,
        width: names.len(),
    }
}

/// The insert plans of all tables.
pub open spec fn plans_of(tables: Seq<(Seq<char>, TableModel)>) -> Seq<(Seq<char>, PlanModel)> {
    Seq::new(tables.len(), |i: int| (tables[i].0, plan_of(tables[i].0, tables[i].1)))
}

/// Every table has its insert plan, and nothing else has one.
pub proof fn law_every_table_has_plan(tables: Seq<(Seq<char>, TableModel)>, name: Seq<char>)
    ensures
        textmap::value_of(plans_of(tables), name) == (match textmap::value_of(tables, name) {
            Some(t) => Some(plan_of(name, t)),
            None => None,
        }),
{
    let plans = plans_of(tables);
    textmap::lemma_key_pos(tables, name);
    textmap::lemma_key_pos(plans, name);
    match textmap::key_pos(tables, name) {
        Some(i) => {
            textmap::lemma_key_pos_is(plans, name, i);
        },
        None => {},
    }
}

/// The insert plans of all tables.
#[verifier::loop_isolation(false)]
pub fn build_insert_plans(schema: &DiscoveredSchema) -> (r: TextMap<TableInsertPlan>)
    ensures
        r.deep_view() == plans_of(schema.deep_view().tables),
{
    let ghost tables = schema.deep_view().tables;
    let ghost want = plans_of(tables);
    let mut plans: TextMap<TableInsertPlan> = TextMap::new();
    assert(plans.deep_view() =~= want.take(0));
    let mut i: usize = 0;
    while i < schema.tables.entries.len()
        invariant
            i <= schema.tables.entries@.len(),
            tables == schema.tables.deep_view(),
            plans.deep_view() == want.take(i as int),
        decreases schema.tables.entries@.len() - i,
    {
        let entry = &schema.tables.entries[i];
        assert(tables[i as int] == (entry.0@, entry.1.deep_view()));
        let ghost before = plans.deep_view();
        let plan = build_insert_plan(entry.0.as_str(), &entry.1);
        plans.entries.push((entry.0.clone(), plan));
        assert(plans.deep_view() =~= before.push((entry.0@, plan.deep_view())));
        assert(want.take(i + 1) =~= want.take(i as int).push(want[i as int]));
        i += 1;
    }
    assert(want.take(i as int) =~= want);
    plans
}

/// The statements that link rows, by junction table.
pub open spec fn link_plans(junctions: Seq<JunctionModel>) -> Seq<(Seq<char>, Seq<char>)>
    decreases junctions.len(),
{
    if junctions.len() == 0 {
        Seq::empty()
    } else {
        let name = junctions.last().table_name;
        textmap::with_value(link_plans(junctions.drop_last()), name, sql::link_sql(name))
    }
}

/// The statements that link rows, by junction table.
#[verifier::loop_isolation(false)]
pub fn build_junction_plans(schema: &DiscoveredSchema) -> (r: TextMap<String>)
    ensures
        r.deep_view() == link_plans(schema.deep_view().junction_tables),
{
    let ghost all = schema.deep_view().junction_tables;
    let mut plans: TextMap<String> = TextMap::new();
    assert(plans.deep_view() =~= link_plans(all.take(0)));
    let mut i: usize = 0;
    while i < schema.junction_tables.len()
        invariant
            i <= schema.junction_tables@.len(),
            all == schema.junction_tables.deep_view(),
            plans.deep_view() == link_plans(all.take(i as int)),
        decreases schema.junction_tables@.len() - i,
    {
        assert(all.take(i + 1).drop_last() =~= all.take(i as int));
        assert(all[i as int] == schema.junction_tables@[i as int].deep_view());
        let name = &schema.junction_tables[i].table_name;
        plans.insert(name.clone(), link_statement(name.as_str()));
        i += 1;
    }
    assert(all.take(i as int) =~= all);
    plans
}

/// Every column of a plan has a place within the row.
pub open spec fn places_within(col_map: Seq<(Seq<char>, usize)>, width: int) -> bool {
    forall|i: int| 0 <= i < col_map.len() ==> (#[trigger] col_map[i]).1 < width
}

proof fn lemma_places_grow(col_map: Seq<(Seq<char>, usize)>, name: Seq<char>, n: usize)
    requires
        places_within(col_map, n as int),
    ensures
        places_within(textmap::with_value(col_map, name, n), n + 1),
{
    textmap::lemma_key_pos(col_map, name);
}

} // verus!
