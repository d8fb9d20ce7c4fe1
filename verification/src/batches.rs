//! Parsed files as statements: rows one by one after insert plans, and lists in
//! batches.

use vstd::prelude::*;
use vstd::string::*;
use crate::files::{FileEntry, FileModel};
use crate::insert;
use crate::insert::{insert_raw, sources_in};
use crate::loca::{LocaModel, ParsedLocaEntry};
use crate::parsed::{ContentModel, ParsedContent};
use crate::partition;
use crate::row_fill;
use crate::row_fill::{fill_equipment_row, fill_stats_row};
use crate::rows::{PlanModel, TableInsertPlan};
use crate::schema::{DiscoveredSchema, SchemaModel};
use crate::sql;
use crate::sql::{list_marks, opt_value, text_value, Statement, StatementModel};
use crate::stats_lists::{EquipmentModel, ModifierModel, ParsedEquipmentEntry, ParsedModifierRow,
    ParsedValueListRow, ValueModel};
use crate::stats_parse::{ParsedStatsEntry, StatsModel};
use crate::text;
use crate::text::{copy_opt, join, owned};
use crate::textmap;
use crate::textmap::{place_of, TextMap};
use crate::types::{SqlModel, SqlValue};

verus! {

/// A statement that adds rows to a table.
#[derive(Debug)]
pub struct Insertion {
    pub table: String,
    /// The number of rows that it offers. Those whose key is there already are
    /// not taken.
    pub offered: u64,
    pub statement: Statement,
}

/// What a statement that adds rows says.
pub struct InsertionModel {
    pub table: Seq<char>,
    pub offered: nat,
    pub statement: StatementModel,
}

impl DeepView for Insertion {
    type V = InsertionModel;

    open spec fn deep_view(&self) -> InsertionModel {
        InsertionModel {
            table: self.table@,
            offered: self.offered as nat,
            statement: self.statement.deep_view(),
        }
    }
}

// ---------------------------------------------------------------------------
// Batches
// ---------------------------------------------------------------------------

/// The largest number of rows that one statement inserts.
pub const BATCH_SIZE: usize = 100;

/// The number of values in a row that is inserted in a batch.
pub const BATCH_WIDTH: usize = 5;

/// The parameters of the row in place `i` of a batch.
pub open spec fn row_marks(i: int) -> Seq<char> {
    "("@ + sql::mark_list((5 * i + 1) as nat, 5) + ")"@
}

/// The parameters of a batch of `n` rows.
pub open spec fn batch_marks(n: nat) -> Seq<char> {
    text::joined(Seq::new(n, |i: int| row_marks(i)), ", "@)
}

/// The values of rows, one row after the other.
pub open spec fn flat(rows: Seq<Seq<SqlModel>>) -> Seq<SqlModel>
    decreases rows.len(),
{
    if rows.len() == 0 {
        Seq::empty()
    } else {
        flat(rows.drop_last()) + rows.last()
    }
}

/// What is inserted in batches: the table, the start of the statement and what
/// it does.
pub struct BatchKind {
    pub table: Seq<char>,
    pub head: Seq<char>,
    pub what: Seq<char>,
}

/// The statement for a batch.
pub open spec fn batch_of(k: BatchKind, rows: Seq<Seq<SqlModel>>) -> InsertionModel {
    InsertionModel {
        table: k.table,
        offered: rows.len(),
        statement: StatementModel {
            what: k.what,
            sql: k.head + batch_marks(rows.len()),
            params: flat(rows),
        },
    }
}

/// The statements for rows: as few as there can be.
pub open spec fn batches(k: BatchKind, rows: Seq<Seq<SqlModel>>) -> Seq<InsertionModel>
    decreases rows.len(),
{
    if rows.len() == 0 {
        Seq::empty()
    } else if rows.len() <= 100 {
        seq![batch_of(k, rows)]
    } else {
        seq![batch_of(k, rows.take(100))] + batches(k, rows.skip(100))
    }
}

/// The number of rows that statements offer.
pub open spec fn rows_offered(list: Seq<InsertionModel>) -> nat
    decreases list.len(),
{
    if list.len() == 0 {
        0
    } else {
        list[0].offered + rows_offered(list.drop_first())
    }
}

/// The batches hold every row once: together they offer as many rows as there
/// are.
pub proof fn law_batches_hold_all(k: BatchKind, rows: Seq<Seq<SqlModel>>)
    ensures
        rows_offered(batches(k, rows)) == rows.len(),
    decreases rows.len(),
{
    let all = batches(k, rows);
    if rows.len() == 0 {
    } else if rows.len() <= 100 {
        assert(all.drop_first() =~= Seq::<InsertionModel>::empty());
        reveal_with_fuel(rows_offered, 2);
    } else {
        law_batches_hold_all(k, rows.skip(100));
        assert(all.drop_first() =~= batches(k, rows.skip(100)));
    }
}

/// No batch has more rows than a statement may have.
pub proof fn law_batches_bounded(k: BatchKind, rows: Seq<Seq<SqlModel>>)
    ensures
        forall|i: int|
            0 <= i < batches(k, rows).len() ==> 0 < (#[trigger] batches(k, rows)[i]).offered <= 100,
    decreases rows.len(),
{
    if rows.len() > 100 {
        let later = batches(k, rows.skip(100));
        law_batches_bounded(k, rows.skip(100));
        assert forall|i: int| 0 <= i < batches(k, rows).len() implies 0 < (#[trigger] batches(
            k,
            rows,
        )[i]).offered <= 100 by {
            if i > 0 {
                assert(batches(k, rows)[i] == later[i - 1]);
            }
        }
    }
}

#[verifier::loop_isolation(false)]
fn list_batch_marks(n: usize) -> (r: String)
    requires
        n <= BATCH_SIZE,
    ensures
        r@ == batch_marks(n as nat),
{
    let ghost want = Seq::new(n as nat, |i: int| row_marks(i));
    let mut parts: Vec<String> = Vec::new();
    assert(parts.deep_view() =~= want.take(0));
    let mut i: usize = 0;
    while i < n
        invariant
            i <= n,
            parts.deep_view() == want.take(i as int),
        decreases n - i,
    {
        let mut part = owned("(");
        let marks = list_marks((BATCH_WIDTH * i + 1) as u64, BATCH_WIDTH);
        part.append(marks.as_str());
        part.append(")");
        let ghost before = parts.deep_view();
        parts.push(part);
        assert(parts.deep_view() =~= before.push(want[i as int]));
        assert(want.take(i + 1) =~= want.take(i as int).push(want[i as int]));
        i += 1;
    }
    assert(want.take(i as int) =~= want);
    join(&parts, ", ")
}

/// The values of the rows from `from` to `to`.
#[verifier::loop_isolation(false)]
fn take_values(rows: &Vec<Vec<SqlValue>>, from: usize, to: usize) -> (r: Vec<SqlValue>)
    requires
        from <= to <= rows@.len(),
    ensures
        r.deep_view() == flat(rows.deep_view().subrange(from as int, to as int)),
{
    let ghost all = rows.deep_view();
    let mut r: Vec<SqlValue> = Vec::new();
    assert(r.deep_view() =~= flat(all.subrange(from as int, from as int)));
    let mut i: usize = from;
    while i < to
        invariant
            from <= i <= to,
            all == rows.deep_view(),
            r.deep_view() == flat(all.subrange(from as int, i as int)),
        decreases to - i,
    {
        let row = &rows[i];
        assert(all[i as int] == row.deep_view());
        let ghost before = r.deep_view();
        let ghost values = row.deep_view();
        let mut j: usize = 0;
        assert(before + values.take(0) =~= before);
        while j < row.len()
            invariant
                j <= row@.len(),
                values == row.deep_view(),
                r.deep_view() == before + values.take(j as int),
            decreases row@.len() - j,
        {
            let v = row[j].clone();
            assert(values[j as int] == row@[j as int].deep_view());
            let ghost held = r.deep_view();
            r.push(v);
            assert(r.deep_view() =~= held.push(v.deep_view()));
            assert(values.take(j + 1) =~= values.take(j as int).push(values[j as int]));
            assert(r.deep_view() =~= before + values.take(j + 1));
            j += 1;
        }
        assert(values.take(j as int) =~= values);
        assert(all.subrange(from as int, i + 1).drop_last() =~= all.subrange(
            from as int,
            i as int,
        ));
        i += 1;
    }
    r
}

/// The statements for rows, in batches.
#[verifier::loop_isolation(false)]
fn make_batches(
    table: &str,
    head: &str,
    what: &'static str,
    rows: &Vec<Vec<SqlValue>>,
) -> (r: Vec<Insertion>)
    ensures
        r.deep_view() == batches(
            BatchKind { table: table@, head: head@, what: what@ },
            rows.deep_view(),
        ),
{
    let ghost k = BatchKind { table: table@, head: head@, what: what@ };
    let ghost all = rows.deep_view();
    let n: usize = rows.len();
    let mut r: Vec<Insertion> = Vec::new();
    let mut from: usize = 0;
    assert(all.skip(0) =~= all);
    assert(r.deep_view() + batches(k, all) =~= batches(k, all));
    while from < n
        invariant
            from <= n,
            n == rows@.len(),
            all == rows.deep_view(),
            r.deep_view() + batches(k, all.skip(from as int)) == batches(k, all),
        decreases n - from,
    {
        let to: usize = if n - from <= BATCH_SIZE {
            n
        } else {
            from + BATCH_SIZE
        };
        let params = take_values(rows, from, to);
        let marks = list_batch_marks(to - from);
        let mut sql = owned(head);
        sql.append(marks.as_str());
        let ins = Insertion {
            table: owned(table),
            offered: (to - from) as u64,
            statement: Statement { what: owned(what), sql, params },
        };
        let ghost before = r.deep_view();
        let ghost left = all.skip(from as int);
        r.push(ins);
        proof {
            assert(r.deep_view() =~= before.push(ins.deep_view()));
            assert(all.subrange(from as int, to as int) =~= left.take(to - from));
            assert(left.take(left.len() as int) =~= left);
            assert(left.skip(to - from) =~= all.skip(to as int));
            assert(ins.deep_view() == batch_of(k, left.take(to - from)));
            assert(r.deep_view() + batches(k, all.skip(to as int)) =~= before + batches(k, left));
        }
        from = to;
    }
    assert(r.deep_view() =~= batches(k, all));
    r
}

/// Localized texts in batches.
pub open spec fn loca_kind() -> BatchKind {
    BatchKind {
        table: "loca__english"@,
        head: "INSERT OR IGNORE INTO \"loca__english\" (contentuid, _file_id, \"_SourceID\", version, text) VALUES "@,
        what: "Execute loca batch"@,
    }
}

/// The row of a localized text.
pub open spec fn loca_values(e: LocaModel, file_id: i64, source_id: i64) -> Seq<SqlModel> {
    seq![
        SqlModel::Text(e.contentuid),
        SqlModel::Integer(file_id as int),
        SqlModel::Integer(source_id as int),
        SqlModel::Integer(e.version as int),
        sql::optional_value(e.text),
    ]
}

/// The statements for localized texts.
pub open spec fn loca_batches(entries: Seq<LocaModel>, file_id: i64, source_id: i64) -> Seq<
    InsertionModel,
> {
    batches(
        loca_kind(),
        Seq::new(entries.len(), |i: int| loca_values(entries[i], file_id, source_id)),
    )
}

/// The statements for localized texts.
#[verifier::loop_isolation(false)]
pub fn insert_parsed_loca(entries: &Vec<ParsedLocaEntry>, file_id: i64, source_id: i64) -> (r: Vec<
    Insertion,
>)
    ensures
        r.deep_view() == loca_batches(entries.deep_view(), file_id, source_id),
{
    let ghost all = entries.deep_view();
    let ghost want = Seq::new(all.len(), |i: int| loca_values(all[i], file_id, source_id));
    let mut rows: Vec<Vec<SqlValue>> = Vec::new();
    assert(rows.deep_view() =~= want.take(0));
    let mut i: usize = 0;
    while i < entries.len()
        invariant
            i <= entries@.len(),
            all == entries.deep_view(),
            rows.deep_view() == want.take(i as int),
        decreases entries@.len() - i,
    {
        let e = &entries[i];
        assert(all[i as int] == e.deep_view());
        let row: Vec<SqlValue> = vec![
            text_value(e.contentuid.as_str()),
            SqlValue::Integer(file_id),
            SqlValue::Integer(source_id),
            SqlValue::Integer(e.version),
            opt_value(&e.text),
        ];
        assert(row.deep_view() =~= want[i as int]);
        let ghost before = rows.deep_view();
        rows.push(row);
        assert(rows.deep_view() =~= before.push(row.deep_view()));
        assert(want.take(i + 1) =~= want.take(i as int).push(want[i as int]));
        i += 1;
    }
    assert(want.take(i as int) =~= want);
    make_batches(
        "loca__english",
        "INSERT OR IGNORE INTO \"loca__english\" (contentuid, _file_id, \"_SourceID\", version, text) VALUES ",
        "Execute loca batch",
        &rows,
    )
}

/// Values of value lists in batches.
pub open spec fn value_kind() -> BatchKind {
    BatchKind {
        table: "valuelist_entries"@,
        head: "INSERT OR IGNORE INTO \"valuelist_entries\" (list_key, value_name, value_index, _file_id, \"_SourceID\") VALUES "@,
        what: "Execute valuelist batch"@,
    }
}

/// The row of a value of a value list.
pub open spec fn value_values(e: ValueModel, file_id: i64, source_id: i64) -> Seq<SqlModel> {
    seq![
        SqlModel::Text(e.list_key),
        SqlModel::Text(e.value_name),
        SqlModel::Integer(e.value_index as int),
        SqlModel::Integer(file_id as int),
        SqlModel::Integer(source_id as int),
    ]
}

/// The statements for the values of value lists.
pub open spec fn value_batches(entries: Seq<ValueModel>, file_id: i64, source_id: i64) -> Seq<
    InsertionModel,
> {
    batches(
        value_kind(),
        Seq::new(entries.len(), |i: int| value_values(entries[i], file_id, source_id)),
    )
}

/// The statements for the values of value lists.
#[verifier::loop_isolation(false)]
pub fn insert_parsed_valuelists(
    entries: &Vec<ParsedValueListRow>,
    file_id: i64,
    source_id: i64,
) -> (r: Vec<Insertion>)
    ensures
        r.deep_view() == value_batches(entries.deep_view(), file_id, source_id),
{
    let ghost all = entries.deep_view();
    let ghost want = Seq::new(all.len(), |i: int| value_values(all[i], file_id, source_id));
    let mut rows: Vec<Vec<SqlValue>> = Vec::new();
    assert(rows.deep_view() =~= want.take(0));
    let mut i: usize = 0;
    while i < entries.len()
        invariant
            i <= entries@.len(),
            all == entries.deep_view(),
            rows.deep_view() == want.take(i as int),
        decreases entries@.len() - i,
    {
        let e = &entries[i];
        assert(all[i as int] == e.deep_view());
        let row: Vec<SqlValue> = vec![
            text_value(e.list_key.as_str()),
            text_value(e.value_name.as_str()),
            SqlValue::Integer(e.value_index),
            SqlValue::Integer(file_id),
            SqlValue::Integer(source_id),
        ];
        assert(row.deep_view() =~= want[i as int]);
        let ghost before = rows.deep_view();
        rows.push(row);
        assert(rows.deep_view() =~= before.push(row.deep_view()));
        assert(want.take(i + 1) =~= want.take(i as int).push(want[i as int]));
        i += 1;
    }
    assert(want.take(i as int) =~= want);
    make_batches(
        "valuelist_entries",
        "INSERT OR IGNORE INTO \"valuelist_entries\" (list_key, value_name, value_index, _file_id, \"_SourceID\") VALUES ",
        "Execute valuelist batch",
        &rows,
    )
}

/// Fields of modifier types in batches.
pub open spec fn modifier_kind() -> BatchKind {
    BatchKind {
        table: "modifier_definitions"@,
        head: "INSERT OR IGNORE INTO \"modifier_definitions\" (type_name, field_name, field_type, _file_id, \"_SourceID\") VALUES "@,
        what: "Execute modifier batch"@,
    }
}

/// The row of a field of a modifier type.
pub open spec fn modifier_values(e: ModifierModel, file_id: i64, source_id: i64) -> Seq<SqlModel> {
    seq![
        SqlModel::Text(e.modifier_type),
        SqlModel::Text(e.field_name),
        SqlModel::Text(e.field_type),
        SqlModel::Integer(file_id as int),
        SqlModel::Integer(source_id as int),
    ]
}

/// The statements for the fields of modifier types.
pub open spec fn modifier_batches(entries: Seq<ModifierModel>, file_id: i64, source_id: i64) -> Seq<
    InsertionModel,
> {
    batches(
        modifier_kind(),
        Seq::new(entries.len(), |i: int| modifier_values(entries[i], file_id, source_id)),
    )
}

/// The statements for the fields of modifier types.
#[verifier::loop_isolation(false)]
pub fn insert_parsed_modifiers(
    entries: &Vec<ParsedModifierRow>,
    file_id: i64,
    source_id: i64,
) -> (r: Vec<Insertion>)
    ensures
        r.deep_view() == modifier_batches(entries.deep_view(), file_id, source_id),
{
    let ghost all = entries.deep_view();
    let ghost want = Seq::new(all.len(), |i: int| modifier_values(all[i], file_id, source_id));
    let mut rows: Vec<Vec<SqlValue>> = Vec::new();
    assert(rows.deep_view() =~= want.take(0));
    let mut i: usize = 0;
    while i < entries.len()
        invariant
            i <= entries@.len(),
            all == entries.deep_view(),
            rows.deep_view() == want.take(i as int),
        decreases entries@.len() - i,
    {
        let e = &entries[i];
        assert(all[i as int] == e.deep_view());
        let row: Vec<SqlValue> = vec![
            text_value(e.modifier_type.as_str()),
            text_value(e.field_name.as_str()),
            text_value(e.field_type.as_str()),
            SqlValue::Integer(file_id),
            SqlValue::Integer(source_id),
        ];
        assert(row.deep_view() =~= want[i as int]);
        let ghost before = rows.deep_view();
        rows.push(row);
        assert(rows.deep_view() =~= before.push(row.deep_view()));
        assert(want.take(i + 1) =~= want.take(i as int).push(want[i as int]));
        i += 1;
    }
    assert(want.take(i as int) =~= want);
    make_batches(
        "modifier_definitions",
        "INSERT OR IGNORE INTO \"modifier_definitions\" (type_name, field_name, field_type, _file_id, \"_SourceID\") VALUES ",
        "Execute modifier batch",
        &rows,
    )
}

// ---------------------------------------------------------------------------
// Rows after insert plans
// ---------------------------------------------------------------------------

/// A row of a table by its plan.
pub open spec fn planned(
    table: Seq<char>,
    plan: PlanModel,
    what: Seq<char>,
    values: Seq<SqlModel>,
) -> InsertionModel {
    InsertionModel {
        table,
        offered: 1,
        statement: StatementModel { what, sql: plan.sql, params: values },
    }
}

/// The statements for stats entries. Entries without a plan are left out.
pub open spec fn entry_insertions(
    entries: Seq<StatsModel>,
    file_id: i64,
    source_id: i64,
    plans: Seq<(Seq<char>, PlanModel)>,
    schema: SchemaModel,
) -> Seq<InsertionModel>
    decreases entries.len(),
{
    if entries.len() == 0 {
        Seq::empty()
    } else {
        let before = entry_insertions(entries.drop_last(), file_id, source_id, plans, schema);
        let e = entries.last();
        match textmap::value_of(plans, e.table_name) {
            Some(plan) => before.push(
                planned(
                    e.table_name,
                    plan,
                    sql::naming("Insert stats"@, e.table_name),
                    row_fill::stats_row(
                        plan,
                        insert::table_sources(schema, e.table_name),
                        e,
                        file_id,
                        source_id,
                    ),
                ),
            ),
            None => before,
        }
    }
}

/// The statements for the content of a stats file.
pub open spec fn stats_insertions(
    entries: Seq<StatsModel>,
    raw_content: Option<Seq<char>>,
    file_id: i64,
    source_id: i64,
    plans: Seq<(Seq<char>, PlanModel)>,
    schema: SchemaModel,
) -> Seq<InsertionModel> {
    let rows = entry_insertions(entries, file_id, source_id, plans, schema);
    match raw_content {
        Some(content) => if textmap::has_key(schema.tables, "txt__raw"@) {
            rows.push(
                InsertionModel {
                    table: "txt__raw"@,
                    offered: 1,
                    statement: insert::raw_statement(content, file_id),
                },
            )
        } else {
            rows
        },
        None => rows,
    }
}

/// The statements for the content of a stats file.
#[verifier::loop_isolation(false)]
pub fn insert_parsed_stats(
    entries: &Vec<ParsedStatsEntry>,
    raw_content: &Option<String>,
    file_id: i64,
    source_id: i64,
    plans: &TextMap<TableInsertPlan>,
    schema: &DiscoveredSchema,
) -> (r: Vec<Insertion>)
    ensures
        r.deep_view() == stats_insertions(
            entries.deep_view(),
            raw_content.deep_view(),
            file_id,
            source_id,
            plans.deep_view(),
            schema.deep_view(),
        ),
{
    let ghost all = entries.deep_view();
    let ghost pm = plans.deep_view();
    let ghost sm = schema.deep_view();
    let mut r: Vec<Insertion> = Vec::new();
    assert(r.deep_view() =~= entry_insertions(all.take(0), file_id, source_id, pm, sm));
    let mut i: usize = 0;
    while i < entries.len()
        invariant
            i <= entries@.len(),
            all == entries.deep_view(),
            pm == plans.deep_view(),
            sm == schema.deep_view(),
            r.deep_view() == entry_insertions(all.take(i as int), file_id, source_id, pm, sm),
        decreases entries@.len() - i,
    {
        assert(all.take(i + 1).drop_last() =~= all.take(i as int));
        let e = &entries[i];
        assert(all[i as int] == e.deep_view());
        let ghost before = r.deep_view();
        match plans.get(e.table_name.as_str()) {
            Some(plan) => {
                let sources = sources_in(schema, e.table_name.as_str());
                let params = fill_stats_row(plan, &sources, e, file_id, source_id);
                let ins = Insertion {
                    table: e.table_name.clone(),
                    offered: 1,
                    statement: Statement {
                        what: sql::name_in("Insert stats", e.table_name.as_str()),
                        sql: plan.sql.clone(),
                        params,
                    },
                };
                r.push(ins);
                assert(r.deep_view() =~= before.push(ins.deep_view()));
            },
            None => {},
        }
        i += 1;
    }
    assert(all.take(i as int) =~= all);
    let ghost before = r.deep_view();
    match raw_content {
        Some(content) => {
            if schema.tables.contains_key("txt__raw") {
                let ins = Insertion {
                    table: owned("txt__raw"),
                    offered: 1,
                    statement: insert_raw(content.as_str(), file_id),
                };
                r.push(ins);
                assert(r.deep_view() =~= before.push(ins.deep_view()));
            }
        },
        None => {},
    }
    r
}

/// The statements for equipment sets, if there is a plan for them.
pub open spec fn equipment_insertions(
    entries: Seq<EquipmentModel>,
    file_id: i64,
    source_id: i64,
    plans: Seq<(Seq<char>, PlanModel)>,
) -> Seq<InsertionModel> {
    match textmap::value_of(plans, "stats__equipment"@) {
        Some(plan) => Seq::new(
            entries.len(),
            |i: int|
                planned(
                    "stats__equipment"@,
                    plan,
                    "Insert equipment"@,
                    row_fill::headed_row(plan, file_id, source_id, entries[i].name),
                ),
        ),
        None => Seq::empty(),
    }
}

/// The statements for equipment sets, if there is a plan for them.
#[verifier::loop_isolation(false)]
pub fn insert_parsed_equipment(
    entries: &Vec<ParsedEquipmentEntry>,
    file_id: i64,
    source_id: i64,
    plans: &TextMap<TableInsertPlan>,
) -> (r: Vec<Insertion>)
    ensures
        r.deep_view() == equipment_insertions(
            entries.deep_view(),
            file_id,
            source_id,
            plans.deep_view(),
        ),
{
    let mut r: Vec<Insertion> = Vec::new();
    let plan = match plans.get("stats__equipment") {
        Some(p) => p,
        None => {
            assert(r.deep_view() =~= Seq::<InsertionModel>::empty());
            return r;
        },
    };
    let ghost all = entries.deep_view();
    let ghost want = equipment_insertions(all, file_id, source_id, plans.deep_view());
    assert(r.deep_view() =~= want.take(0));
    let mut i: usize = 0;
    while i < entries.len()
        invariant
            i <= entries@.len(),
            all == entries.deep_view(),
            want.len() == entries@.len(),
            r.deep_view() == want.take(i as int),
        decreases entries@.len() - i,
    {
        assert(all[i as int] == entries@[i as int].deep_view());
        let params = fill_equipment_row(plan, entries[i].name.as_str(), file_id, source_id);
        let ins = Insertion {
            table: owned("stats__equipment"),
            offered: 1,
            statement: Statement { what: owned("Insert equipment"), sql: plan.sql.clone(), params },
        };
        let ghost before = r.deep_view();
        r.push(ins);
        assert(r.deep_view() =~= before.push(ins.deep_view()));
        assert(want.take(i + 1) =~= want.take(i as int).push(want[i as int]));
        i += 1;
    }
    assert(want.take(i as int) =~= want);
    r
}

/// The statements for the content of a file. The rows of trees go in one by one
/// and are not among them.
pub open spec fn content_insertions(
    content: ContentModel,
    file_id: i64,
    source_id: i64,
    plans: Seq<(Seq<char>, PlanModel)>,
    schema: SchemaModel,
) -> Seq<InsertionModel> {
    match content {
        ContentModel::Lsx { last_region_id, root_nodes } => Seq::empty(),
        ContentModel::Stats { entries, last_type, raw_content } => stats_insertions(
            entries,
            raw_content,
            file_id,
            source_id,
            plans,
            schema,
        ),
        ContentModel::Loca { entries } => loca_batches(entries, file_id, source_id),
        ContentModel::Equipment { entries } => equipment_insertions(
            entries,
            file_id,
            source_id,
            plans,
        ),
        ContentModel::ValueLists { entries } => value_batches(entries, file_id, source_id),
        ContentModel::Modifiers { entries } => modifier_batches(entries, file_id, source_id),
        ContentModel::Empty => Seq::empty(),
    }
}

/// The statements for the content of a file, but for its trees.
pub fn insert_parsed_content(
    content: &ParsedContent,
    file_id: i64,
    source_id: i64,
    plans: &TextMap<TableInsertPlan>,
    schema: &DiscoveredSchema,
) -> (r: Vec<Insertion>)
    ensures
        r.deep_view() == content_insertions(
            content.deep_view(),
            file_id,
            source_id,
            plans.deep_view(),
            schema.deep_view(),
        ),
{
    let none: Vec<Insertion> = Vec::new();
    assert(none.deep_view() =~= Seq::<InsertionModel>::empty());
    match content {
        ParsedContent::Lsx { .. } => none,
        ParsedContent::Stats { entries, raw_content, .. } => insert_parsed_stats(
            entries,
            raw_content,
            file_id,
            source_id,
            plans,
            schema,
        ),
        ParsedContent::Loca { entries } => insert_parsed_loca(entries, file_id, source_id),
        ParsedContent::Equipment { entries } => insert_parsed_equipment(
            entries,
            file_id,
            source_id,
            plans,
        ),
        ParsedContent::ValueLists { entries } => insert_parsed_valuelists(
            entries,
            file_id,
            source_id,
        ),
        ParsedContent::Modifiers { entries } => insert_parsed_modifiers(
            entries,
            file_id,
            source_id,
        ),
        ParsedContent::Empty => none,
    }
}

/// The region that the content of a file is filed under: its last region, or
/// its last type of entries.
pub open spec fn region_of(content: ContentModel) -> Option<Seq<char>> {
    match content {
        ContentModel::Lsx { last_region_id, root_nodes } => last_region_id,
        ContentModel::Stats { entries, last_type, raw_content } => last_type,
        _ => None,
    }
}

/// The region that the content of a file is filed under.
pub fn content_region(content: &ParsedContent) -> (r: Option<String>)
    ensures
        r.deep_view() == region_of(content.deep_view()),
{
    match content {
        ParsedContent::Lsx { last_region_id, .. } => copy_opt(last_region_id),
        ParsedContent::Stats { last_type, .. } => copy_opt(last_type),
        _ => None,
    }
}

/// The row of a file, before its content goes in.
pub open spec fn file_row(file: FileModel, file_id: i64, mod_name: Seq<char>, file_size: u64) -> StatementModel {
    StatementModel {
        what: "Insert source file"@,
        sql: "INSERT INTO _source_files (file_id, path, file_type, mod_name, region_id, row_count, file_size) VALUES (?1, ?2, ?3, ?4, NULL, 0, ?5)"@,
        params: seq![
            SqlModel::Integer(file_id as int),
            SqlModel::Text(file.rel_path),
            SqlModel::Text(file.file_type.label()),
            SqlModel::Text(mod_name),
            SqlModel::Integer(file_size as i64 as int),
        ],
    }
}

/// The row of a file, before its content goes in.
pub fn insert_source_file(file: &FileEntry, file_id: i64, mod_name: &str, file_size: u64) -> (r:
    Statement)
    ensures
        r.deep_view() == file_row(file.deep_view(), file_id, mod_name@, file_size),
{
    let params: Vec<SqlValue> = vec![
        SqlValue::Integer(file_id),
        text_value(file.rel_path.as_str()),
        text_value(file.file_type.as_str()),
        text_value(mod_name),
        SqlValue::Integer(file_size as i64),
    ];
    assert(params.deep_view() =~= file_row(file.deep_view(), file_id, mod_name@, file_size).params);
    Statement {
        what: owned("Insert source file"),
        sql: owned(
            "INSERT INTO _source_files (file_id, path, file_type, mod_name, region_id, row_count, file_size) VALUES (?1, ?2, ?3, ?4, NULL, 0, ?5)",
        ),
        params,
    }
}

/// The row of a file, once its content is in.
pub open spec fn file_done(region_id: Option<Seq<char>>, rows: u64, file_id: i64) -> StatementModel {
    StatementModel {
        what: "Update source file"@,
        sql: "UPDATE _source_files SET region_id = ?1, row_count = ?2 WHERE file_id = ?3"@,
        params: seq![
            sql::optional_value(region_id),
            SqlModel::Integer(rows as i64 as int),
            SqlModel::Integer(file_id as int),
        ],
    }
}

/// The row of a file, once its content is in.
pub fn update_source_file(region_id: &Option<String>, rows: u64, file_id: i64) -> (r: Statement)
    ensures
        r.deep_view() == file_done(region_id.deep_view(), rows, file_id),
{
    let params: Vec<SqlValue> = vec![
        opt_value(region_id),
        SqlValue::Integer(rows as i64),
        SqlValue::Integer(file_id),
    ];
    assert(params.deep_view() =~= file_done(region_id.deep_view(), rows, file_id).params);
    Statement {
        what: owned("Update source file"),
        sql: owned("UPDATE _source_files SET region_id = ?1, row_count = ?2 WHERE file_id = ?3"),
        params,
    }
}

/// The number of rows by table, with some more for a table, as far as it can be
/// held. Tables that are not counted stay so.
pub open spec fn counted(counts: Seq<(Seq<char>, u64)>, table: Seq<char>, rows: u64) -> Seq<
    (Seq<char>, u64),
> {
    match textmap::value_of(counts, table) {
        Some(n) => textmap::with_value(counts, table, partition::sum_or_max(n, rows)),
        None => counts,
    }
}

/// Counts rows of a table.
pub fn count_rows(counts: &mut TextMap<u64>, table: &str, rows: u64)
    ensures
        final(counts).deep_view() == counted(old(counts).deep_view(), table@, rows),
{
    let ghost before = counts.deep_view();
    proof {
        textmap::lemma_key_pos(before, table@);
    }
    match place_of(&counts.entries, table) {
        Some(i) => {
            assert(before[i as int].1 == counts.entries@[i as int].1);
            let n: u64 = counts.entries[i].1;
            counts.entries[i].1 = n.saturating_add(rows);
            assert(counts.deep_view() =~= counted(before, table@, rows));
        },
        None => {},
    }
}

/// The number of rows that statements inserted, as far as it can be held, from
/// the number that each of them did.
pub open spec fn rows_inserted(taken: Seq<u64>) -> u64
    decreases taken.len(),
{
    if taken.len() == 0 {
        0
    } else {
        partition::sum_or_max(rows_inserted(taken.drop_last()), taken.last())
    }
}

/// The number of rows by table, with those that statements inserted.
pub open spec fn all_counted(
    counts: Seq<(Seq<char>, u64)>,
    list: Seq<InsertionModel>,
    taken: Seq<u64>,
) -> Seq<(Seq<char>, u64)>
    decreases list.len(),
{
    if list.len() == 0 || taken.len() == 0 {
        counts
    } else {
        counted(
            all_counted(counts, list.drop_last(), taken.drop_last()),
            list.last().table,
            taken.last(),
        )
    }
}

/// The number of rows that the statements of a file inserted, from the number
/// that each of them did. The rows are counted by table.
#[verifier::loop_isolation(false)]
pub fn insert_parsed_file(counts: &mut TextMap<u64>, insertions: &Vec<Insertion>, taken: &Vec<u64>)
    -> (rows: u64)
    requires
        insertions@.len() == taken@.len(),
    ensures
        rows == rows_inserted(taken@),
        final(counts).deep_view() == all_counted(
            old(counts).deep_view(),
            insertions.deep_view(),
            taken@,
        ),
{
    let ghost start = counts.deep_view();
    let ghost all = insertions.deep_view();
    let mut rows: u64 = 0;
    let mut i: usize = 0;
    while i < insertions.len()
        invariant
            i <= insertions@.len(),
            insertions@.len() == taken@.len(),
            all == insertions.deep_view(),
            rows == rows_inserted(taken@.take(i as int)),
            counts.deep_view() == all_counted(start, all.take(i as int), taken@.take(i as int)),
        decreases insertions@.len() - i,
    {
        assert(all.take(i + 1).drop_last() =~= all.take(i as int));
        assert(taken@.take(i + 1).drop_last() =~= taken@.take(i as int));
        assert(all[i as int] == insertions@[i as int].deep_view());
        count_rows(counts, insertions[i].table.as_str(), taken[i]);
        rows = rows.saturating_add(taken[i]);
        i += 1;
    }
    assert(all.take(i as int) =~= all);
    assert(taken@.take(i as int) =~= taken@);
    rows
}

/// Whether no statement inserted more rows than it offers.
pub open spec fn takes_offered(list: Seq<InsertionModel>, taken: Seq<u64>) -> bool {
    &&& list.len() == taken.len()
    &&& forall|i: int|
        0 <= i < list.len() ==> (#[trigger] taken[i]) <= (#[trigger] list[i]).offered
}

/// No more rows are inserted than are offered.
pub proof fn law_inserted_within_offered(list: Seq<InsertionModel>, taken: Seq<u64>)
    requires
        takes_offered(list, taken),
    ensures
        rows_inserted(taken) <= rows_offered(list),
    decreases list.len(),
{
    if list.len() > 0 {
        let l = list.drop_last();
        let t = taken.drop_last();
        assert forall|i: int| 0 <= i < l.len() implies (#[trigger] t[i]) <= (#[trigger] l[i]).offered
            by {
            assert(t[i] == taken[i]);
            assert(l[i] == list[i]);
        }
        law_inserted_within_offered(l, t);
        lemma_offered_last(list);
        assert(taken[list.len() - 1] <= list[list.len() - 1].offered);
    }
}

proof fn lemma_offered_last(list: Seq<InsertionModel>)
    requires
        list.len() > 0,
    ensures
        rows_offered(list) == rows_offered(list.drop_last()) + list.last().offered,
    decreases list.len(),
{
    if list.len() == 1 {
        assert(list.drop_first() =~= Seq::<InsertionModel>::empty());
        assert(list.drop_last() =~= Seq::<InsertionModel>::empty());
        reveal_with_fuel(rows_offered, 2);
    } else {
        lemma_offered_last(list.drop_first());
        assert(list.drop_last().drop_first() =~= list.drop_first().drop_last());
        assert(list.drop_last()[0] == list[0]);
    }
}

// ---------------------------------------------------------------------------
// Sources
// ---------------------------------------------------------------------------

/// The numbers of the modules that rows come from.
#[derive(Debug)]
pub struct SourceIdCache {
    pub cache: TextMap<i64>,
    pub next_id: i64,
}

/// A number for each module name, below the next one, and not given twice.
pub open spec fn numbered(cache: Seq<(Seq<char>, i64)>, next_id: i64) -> bool {
    &&& forall|i: int| 0 <= i < cache.len() ==> (#[trigger] cache[i]).1 < next_id
    &&& forall|i: int, j: int|
        0 <= i < j < cache.len() ==> (#[trigger] cache[i]).1 != (#[trigger] cache[j]).1
}

/// The number of a module.
#[derive(Debug)]
pub enum SourceId {
    /// The module has a number.
    Known(i64),
    /// The module gets a number, by this statement.
    New(i64, Statement),
}

/// The statement that gives a module its number.
pub open spec fn source_row(id: i64, mod_name: Seq<char>) -> StatementModel {
    StatementModel {
        what: "Insert _sources"@,
        sql: "INSERT OR IGNORE INTO _sources (id, name) VALUES (?1, ?2)"@,
        params: seq![SqlModel::Integer(id as int), SqlModel::Text(mod_name)],
    }
}

/// The largest number among rows, or zero.
pub open spec fn max_id(rows: Seq<(i64, Seq<char>)>) -> i64
    decreases rows.len(),
{
    if rows.len() == 0 {
        0
    } else {
        let m = max_id(rows.drop_last());
        if rows.last().0 > m {
            rows.last().0
        } else {
            m
        }
    }
}

/// The numbers that rows give to modules.
pub open spec fn ids_of(rows: Seq<(i64, Seq<char>)>) -> Seq<(Seq<char>, i64)>
    decreases rows.len(),
{
    if rows.len() == 0 {
        Seq::empty()
    } else {
        textmap::with_value(ids_of(rows.drop_last()), rows.last().1, rows.last().0)
    }
}

impl SourceIdCache {
    /// No module has a number yet.
    pub fn new() -> (r: Self)
        ensures
            r.cache.deep_view() == Seq::<(Seq<char>, i64)>::empty(),
            r.next_id == 1,
            numbered(r.cache.deep_view(), r.next_id),
    {
        SourceIdCache { cache: TextMap::new(), next_id: 1 }
    }

    /// The modules have the numbers that `rows` give them.
    #[verifier::loop_isolation(false)]
    pub fn new_from_existing(rows: &Vec<(i64, String)>) -> (r: Self)
        requires
            forall|i: int| 0 <= i < rows@.len() ==> (#[trigger] rows@[i]).0 < i64::MAX,
        ensures
            r.cache.deep_view() == ids_of(rows.deep_view()),
            r.next_id == max_id(rows.deep_view()) + 1,
    {
        let ghost all = rows.deep_view();
        let mut cache: TextMap<i64> = TextMap::new();
        let mut top: i64 = 0;
        assert(cache.deep_view() =~= ids_of(all.take(0)));
        let mut i: usize = 0;
        while i < rows.len()
            invariant
                i <= rows@.len(),
                all == rows.deep_view(),
                0 <= top < i64::MAX,
                top == max_id(all.take(i as int)),
                cache.deep_view() == ids_of(all.take(i as int)),
            decreases rows@.len() - i,
        {
            assert(all.take(i + 1).drop_last() =~= all.take(i as int));
            assert(all[i as int] == rows@[i as int].deep_view());
            let id: i64 = rows[i].0;
            if id > top {
                top = id;
            }
            cache.insert(rows[i].1.clone(), id);
            i += 1;
        }
        assert(all.take(i as int) =~= all);
        SourceIdCache { cache, next_id: top + 1 }
    }

    /// The number of a module, or the one that it is to get.
    pub fn resolve(&self, mod_name: &str) -> (r: SourceId)
        ensures
            match textmap::value_of(self.cache.deep_view(), mod_name@) {
                Some(id) => r == SourceId::Known(id),
                None => r matches SourceId::New(id, st) && id == self.next_id && st.deep_view()
                    == source_row(id, mod_name@),
            },
    {
        match self.cache.get(mod_name) {
            Some(id) => SourceId::Known(*id),
            None => {
                let params: Vec<SqlValue> = vec![
                    SqlValue::Integer(self.next_id),
                    text_value(mod_name),
                ];
                assert(params.deep_view() =~= source_row(self.next_id, mod_name@).params);
                SourceId::New(
                    self.next_id,
                    Statement {
                        what: owned("Insert _sources"),
                        sql: owned("INSERT OR IGNORE INTO _sources (id, name) VALUES (?1, ?2)"),
                        params,
                    },
                )
            },
        }
    }

    /// Takes note that a module got its number.
    pub fn remember(&mut self, mod_name: &str)
        requires
            old(self).next_id < i64::MAX,
        ensures
            final(self).cache.deep_view() == textmap::with_value(
                old(self).cache.deep_view(),
                mod_name@,
                old(self).next_id,
            ),
            final(self).next_id == old(self).next_id + 1,
            numbered(old(self).cache.deep_view(), old(self).next_id) ==> numbered(
                final(self).cache.deep_view(),
                final(self).next_id,
            ),
    {
        let ghost before = self.cache.deep_view();
        let id: i64 = self.next_id;
        self.cache.insert(owned(mod_name), id);
        self.next_id = id + 1;
        proof {
            textmap::lemma_key_pos(before, mod_name@);
        }
    }
}

} // verus!
