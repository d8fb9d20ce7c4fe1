//! Rows that are filled after an insert plan.

use vstd::prelude::*;
use crate::discovery::glued;
use crate::rows;
use crate::rows::{is_reference, PlanModel, TableInsertPlan};
use crate::schema::PkStrategy;
use crate::stats_parse::{ParsedStatsEntry, StatsModel};
use crate::stats_text;
use crate::stats_text::is_stats_loca_column;
use crate::text;
use crate::text::{decimal_text, int_text, list_has, owned, parse_i64, split_once, text_eq,
    to_ascii_lower};
use crate::textmap;
use crate::types;
use crate::types::{coerce_value, SqlModel, SqlValue};

verus! {

/// A row with nothing in it.
pub open spec fn blank_row(width: nat) -> Seq<SqlModel> {
    Seq::new(width, |i: int| SqlModel::Null)
}

/// A row with the value `v` in place `i`.
pub open spec fn put(row: Seq<SqlModel>, i: int, v: SqlModel) -> Seq<SqlModel> {
    if 0 <= i < row.len() {
        row.update(i, v)
    } else {
        row
    }
}

/// A row with the value `v` in the place of a column, where the plan has it.
pub open spec fn put_column(
    row: Seq<SqlModel>,
    plan: PlanModel,
    column: Seq<char>,
    v: SqlModel,
) -> Seq<SqlModel> {
    match textmap::value_of(plan.col_map, column) {
        Some(i) => put(row, i as int, v),
        None => row,
    }
}

#[verifier::loop_isolation(false)]
fn make_blank(width: usize) -> (r: Vec<SqlValue>)
    ensures
        r.deep_view() == blank_row(width as nat),
{
    let mut r: Vec<SqlValue> = Vec::new();
    let mut i: usize = 0;
    while i < width
        invariant
            i <= width,
            r.deep_view() == blank_row(i as nat),
        decreases width - i,
    {
        let ghost before = r.deep_view();
        let null = SqlValue::Null;
        assert(null.deep_view() == SqlModel::Null);
        r.push(null);
        assert(r.deep_view() =~= before.push(SqlModel::Null));
        i += 1;
        assert(r.deep_view() =~= blank_row(i as nat));
    }
    r
}

fn put_value(row: &mut Vec<SqlValue>, i: usize, v: SqlValue)
    ensures
        final(row).deep_view() == put(old(row).deep_view(), i as int, v.deep_view()),
{
    let ghost before = row.deep_view();
    assert(before.len() == row@.len());
    if i < row.len() {
        row[i] = v;
        assert(row.deep_view() =~= before.update(i as int, v.deep_view()));
    }
}

fn put_named(row: &mut Vec<SqlValue>, plan: &TableInsertPlan, column: &str, v: SqlValue)
    ensures
        final(row).deep_view() == put_column(
            old(row).deep_view(),
            plan.deep_view(),
            column@,
            v.deep_view(),
        ),
{
    match plan.col_map.get(column) {
        Some(i) => put_value(row, *i, v),
        None => {},
    }
}

/// A row with its file, its source and its key.
pub open spec fn headed_row(
    plan: PlanModel,
    file_id: i64,
    source_id: i64,
    key: Seq<char>,
) -> Seq<SqlModel> {
    let filed = put(
        blank_row(plan.width as nat),
        plan.file_id_idx as int,
        SqlModel::Integer(file_id as int),
    );
    let sourced = match plan.source_id_idx {
        Some(i) => put(filed, i as int, SqlModel::Integer(source_id as int)),
        None => filed,
    };
    match plan.pk_idx {
        Some(i) => put(sourced, i as int, SqlModel::Text(key)),
        None => sourced,
    }
}

fn head_row(plan: &TableInsertPlan, file_id: i64, source_id: i64, key: &str) -> (r: Vec<SqlValue>)
    ensures
        r.deep_view() == headed_row(plan.deep_view(), file_id, source_id, key@),
{
    let mut row = make_blank(plan.width);
    put_value(&mut row, plan.file_id_idx, SqlValue::Integer(file_id));
    if let Some(i) = plan.source_id_idx {
        put_value(&mut row, i, SqlValue::Integer(source_id));
    }
    if let Some(i) = plan.pk_idx {
        put_value(&mut row, i, SqlValue::Text(owned(key)));
    }
    row
}

// ---------------------------------------------------------------------------
// Rows of nodes
// ---------------------------------------------------------------------------

/// The value of a column among values, where it is there.
pub open spec fn found_value(
    attrs: Seq<(Seq<char>, Seq<char>, Seq<char>)>,
    column: Seq<char>,
) -> Option<Seq<char>>
    decreases attrs.len(),
{
    if attrs.len() == 0 {
        None
    } else if attrs[0].0 == column {
        Some(attrs[0].2)
    } else {
        found_value(attrs.drop_first(), column)
    }
}

#[verifier::loop_isolation(false)]
fn find_value(attrs: &Vec<(String, String, String)>, column: &str) -> (r: Option<String>)
    ensures
        r.deep_view() == found_value(attrs.deep_view(), column@),
{
    let ghost all = attrs.deep_view();
    assert(all.skip(0) =~= all);
    let mut i: usize = 0;
    while i < attrs.len()
        invariant
            i <= attrs@.len(),
            all == attrs.deep_view(),
            found_value(all.skip(i as int), column@) == found_value(all, column@),
        decreases attrs@.len() - i,
    {
        let ghost tail = all.skip(i as int);
        assert(tail[0] == attrs@[i as int].deep_view());
        if text_eq(attrs[i].0.as_str(), column) {
            return Some(attrs[i].2.clone());
        }
        assert(tail.drop_first() =~= all.skip(i + 1));
        i += 1;
    }
    assert(all.skip(i as int) =~= Seq::<(Seq<char>, Seq<char>, Seq<char>)>::empty());
    None
}

/// The key that a row gets which has none: `_row_id_N`.
pub open spec fn made_key(n: u64) -> Seq<char> {
    "_row_id_"@ + text::decimal(n as nat)
}

/// The key for a row that has none.
pub fn make_key(n: u64) -> (r: String)
    ensures
        r@ == made_key(n),
{
    let d = decimal_text(n);
    glued("_row_id_", d.as_str())
}

/// A row with the value of an attribute. References to nothing are left out.
pub open spec fn with_attr(
    row: Seq<SqlModel>,
    plan: PlanModel,
    a: (Seq<char>, Seq<char>, Seq<char>),
) -> Seq<SqlModel> {
    if plan.pk_idx is Some && a.0 == plan.pk_col_lower {
        row
    } else if (text::listed(plan.fk_cols, a.0) || a.1 == "TranslatedString"@)
        && rows::refers_to_nothing(a.2) {
        row
    } else {
        put_column(row, plan, a.0, types::coerced(a.2, a.1))
    }
}

/// A row with the values of several attributes.
pub open spec fn with_attrs(
    row: Seq<SqlModel>,
    plan: PlanModel,
    attrs: Seq<(Seq<char>, Seq<char>, Seq<char>)>,
) -> Seq<SqlModel>
    decreases attrs.len(),
{
    if attrs.len() == 0 {
        row
    } else {
        with_attr(with_attrs(row, plan, attrs.drop_last()), plan, attrs.last())
    }
}

/// The key of a node's row: its own, or a made one. A table without a natural
/// key gives none.
pub open spec fn key_of(
    plan: PlanModel,
    attrs: Seq<(Seq<char>, Seq<char>, Seq<char>)>,
    next_key: u64,
) -> Option<Seq<char>> {
    if plan.pk_idx is None {
        None
    } else {
        match found_value(attrs, plan.pk_col_lower) {
            Some(v) => Some(v),
            None => Some(made_key(next_key)),
        }
    }
}

/// A row that is ready to be inserted.
#[derive(Debug)]
pub struct FilledRow {
    pub values: Vec<SqlValue>,
    /// The key, unless the table makes it.
    pub key: Option<String>,
    /// Whether the key is a made one.
    pub made: bool,
}

/// What a row that is ready says.
pub struct FilledModel {
    pub values: Seq<SqlModel>,
    pub key: Option<Seq<char>>,
    pub made: bool,
}

impl DeepView for FilledRow {
    type V = FilledModel;

    open spec fn deep_view(&self) -> FilledModel {
        FilledModel {
            values: self.values.deep_view(),
            key: self.key.deep_view(),
            made: self.made,
        }
    }
}

/// The row of a node.
pub open spec fn node_row(
    plan: PlanModel,
    attrs: Seq<(Seq<char>, Seq<char>, Seq<char>)>,
    file_id: i64,
    source_id: i64,
    next_key: u64,
) -> FilledModel {
    let key = key_of(plan, attrs, next_key);
    FilledModel {
        values: with_attrs(
            headed_row(plan, file_id, source_id, text::or_empty(key)),
            plan,
            attrs,
        ),
        key,
        made: plan.pk_idx is Some && found_value(attrs, plan.pk_col_lower) is None,
    }
}

fn put_attr(row: &mut Vec<SqlValue>, plan: &TableInsertPlan, a: &(String, String, String))
    ensures
        final(row).deep_view() == with_attr(
            old(row).deep_view(),
            plan.deep_view(),
            a.deep_view(),
        ),
{
    if plan.pk_idx.is_some() && text_eq(a.0.as_str(), plan.pk_col_lower.as_str()) {
        return;
    }
    let refers = list_has(&plan.fk_cols, a.0.as_str()) || text_eq(
        a.1.as_str(),
        "TranslatedString",
    );
    if !(refers && !is_reference(a.2.as_str())) {
        put_named(row, plan, a.0.as_str(), coerce_value(a.2.as_str(), a.1.as_str()));
    }
}

/// The row of a node. Where it has no key of its own, it gets the one numbered
/// `next_key`.
#[verifier::loop_isolation(false)]
pub fn fill_node_row(
    plan: &TableInsertPlan,
    attrs: &Vec<(String, String, String)>,
    file_id: i64,
    source_id: i64,
    next_key: u64,
) -> (r: FilledRow)
    ensures
        r.deep_view() == node_row(
            plan.deep_view(),
            attrs.deep_view(),
            file_id,
            source_id,
            next_key,
        ),
{
    let ghost all = attrs.deep_view();
    let own = find_value(attrs, plan.pk_col_lower.as_str());
    let made = plan.pk_idx.is_some() && own.is_none();
    let key: Option<String> = if plan.pk_idx.is_some() {
        match own {
            Some(v) => Some(v),
            None => Some(make_key(next_key)),
        }
    } else {
        None
    };
    let head_key = match &key {
        Some(k) => k.clone(),
        None => String::new(),
    };
    let mut values = head_row(plan, file_id, source_id, head_key.as_str());
    let ghost start = values.deep_view();
    assert(head_key@ =~= text::or_empty(key.deep_view()));
    let mut i: usize = 0;
    while i < attrs.len()
        invariant
            i <= attrs@.len(),
            all == attrs.deep_view(),
            values.deep_view() == with_attrs(start, plan.deep_view(), all.take(i as int)),
        decreases attrs@.len() - i,
    {
        assert(all.take(i + 1).drop_last() =~= all.take(i as int));
        assert(all[i as int] == attrs@[i as int].deep_view());
        put_attr(&mut values, plan, &attrs[i]);
        i += 1;
    }
    assert(all.take(i as int) =~= all);
    FilledRow { values, key, made }
}

/// What came of inserting a row.
#[derive(Debug)]
pub enum RowOutcome {
    /// The row has the key `pk`. It was inserted now, or was there before.
    Keyed { pk: String, inserted: bool },
    /// The row has no key.
    Unkeyed,
    /// The row was refused.
    Failed,
}

/// What came of inserting a row.
pub enum OutcomeModel {
    Keyed { pk: Seq<char>, inserted: bool },
    Unkeyed,
    Failed,
}

impl DeepView for RowOutcome {
    type V = OutcomeModel;

    open spec fn deep_view(&self) -> OutcomeModel {
        match self {
            RowOutcome::Keyed { pk, inserted } => OutcomeModel::Keyed {
                pk: pk@,
                inserted: *inserted,
            },
            RowOutcome::Unkeyed => OutcomeModel::Unkeyed,
            RowOutcome::Failed => OutcomeModel::Failed,
        }
    }
}

/// What came of a row that the database took. `affected` is the number of rows
/// that the statement wrote, `rowid` the key that the database gave to the last
/// one.
pub fn row_outcome(
    strategy: PkStrategy,
    key: Option<String>,
    affected: u64,
    rowid: i64,
) -> (r: RowOutcome)
    ensures
        r.deep_view() == (if strategy == PkStrategy::Rowid && affected > 0 {
            OutcomeModel::Keyed { pk: text::decimal_int(rowid as int), inserted: true }
        } else {
            match key {
                Some(k) => OutcomeModel::Keyed { pk: k@, inserted: affected > 0 },
                None => OutcomeModel::Unkeyed,
            }
        }),
{
    if strategy == PkStrategy::Rowid && affected > 0 {
        RowOutcome::Keyed { pk: int_text(rowid), inserted: true }
    } else {
        match key {
            Some(k) => RowOutcome::Keyed { pk: k, inserted: affected > 0 },
            None => RowOutcome::Unkeyed,
        }
    }
}

/// What came of a row that is written out on its own, whose children go in even
/// where the database had its key before.
pub fn direct_outcome(
    strategy: PkStrategy,
    key: Option<String>,
    affected: u64,
    rowid: i64,
) -> (r: RowOutcome)
    ensures
        r.deep_view() == (if strategy == PkStrategy::Rowid && affected > 0 {
            OutcomeModel::Keyed { pk: text::decimal_int(rowid as int), inserted: true }
        } else {
            match key {
                Some(k) => OutcomeModel::Keyed { pk: k@, inserted: true },
                None => OutcomeModel::Unkeyed,
            }
        }),
{
    match row_outcome(strategy, key, affected, rowid) {
        RowOutcome::Keyed { pk, inserted: _ } => RowOutcome::Keyed { pk, inserted: true },
        other => other,
    }
}

// ---------------------------------------------------------------------------
// Rows of stats entries
// ---------------------------------------------------------------------------

/// The version of a localized text as it is stored.
pub open spec fn version_value(ver: Seq<char>) -> SqlModel {
    match text::number_within(ver, i64::MIN as int, i64::MAX as int) {
        Some(n) => SqlModel::Integer(n),
        None => SqlModel::Text(ver),
    }
}

/// The version of a localized text as it is stored.
pub fn store_version(ver: &str) -> (r: SqlValue)
    ensures
        r.deep_view() == version_value(ver@),
{
    match parse_i64(ver) {
        Some(n) => SqlValue::Integer(n),
        None => SqlValue::Text(owned(ver)),
    }
}

/// A row with a reference, unless it refers to nothing.
pub open spec fn put_reference(
    row: Seq<SqlModel>,
    plan: PlanModel,
    column: Seq<char>,
    value: Seq<char>,
) -> Seq<SqlModel> {
    if rows::refers_to_nothing(value) {
        row
    } else {
        put_column(row, plan, column, SqlModel::Text(value))
    }
}

fn put_named_reference(row: &mut Vec<SqlValue>, plan: &TableInsertPlan, column: &str, value: &str)
    ensures
        final(row).deep_view() == put_reference(
            old(row).deep_view(),
            plan.deep_view(),
            column@,
            value@,
        ),
{
    if is_reference(value) {
        put_named(row, plan, column, SqlValue::Text(owned(value)));
    }
}

/// A row with a field of an entry. A localized field holds a handle and a
/// version, which go to columns of their own.
pub open spec fn with_field(
    row: Seq<SqlModel>,
    plan: PlanModel,
    sources: Seq<Seq<char>>,
    field: (Seq<char>, Seq<char>),
) -> Seq<SqlModel> {
    let column = text::ascii_lowered(field.0);
    if stats_text::loca_column(field.0) {
        match text::halves(field.1, ';') {
            Some(h) => put_column(
                put_reference(row, plan, column, h.0),
                plan,
                column + "_version"@,
                version_value(h.1),
            ),
            None => put_reference(row, plan, column, field.1),
        }
    } else if text::listed(sources, field.0) {
        put_reference(row, plan, column, field.1)
    } else {
        put_column(row, plan, column, SqlModel::Text(field.1))
    }
}

/// A row with several fields of an entry.
pub open spec fn with_fields(
    row: Seq<SqlModel>,
    plan: PlanModel,
    sources: Seq<Seq<char>>,
    fields: Seq<(Seq<char>, Seq<char>)>,
) -> Seq<SqlModel>
    decreases fields.len(),
{
    if fields.len() == 0 {
        row
    } else {
        with_field(with_fields(row, plan, sources, fields.drop_last()), plan, sources, fields.last())
    }
}

/// The row of a stats entry.
pub open spec fn stats_row(
    plan: PlanModel,
    sources: Seq<Seq<char>>,
    entry: StatsModel,
    file_id: i64,
    source_id: i64,
) -> Seq<SqlModel> {
    let headed = headed_row(plan, file_id, source_id, entry.entry_name);
    let typed = put_column(headed, plan, "_type"@, SqlModel::Text(entry.entry_type));
    let based = match entry.entry_using {
        Some(u) => put_reference(typed, plan, "_using"@, u),
        None => typed,
    };
    with_fields(based, plan, sources, entry.data)
}

fn put_field(
    row: &mut Vec<SqlValue>,
    plan: &TableInsertPlan,
    sources: &Vec<String>,
    field: &(String, String),
)
    ensures
        final(row).deep_view() == with_field(
            old(row).deep_view(),
            plan.deep_view(),
            sources.deep_view(),
            field.deep_view(),
        ),
{
    let column = to_ascii_lower(field.0.as_str());
    if is_stats_loca_column(field.0.as_str()) {
        match split_once(field.1.as_str(), ';') {
            Some(h) => {
                put_named_reference(row, plan, column.as_str(), h.0.as_str());
                let ver_column = glued(column.as_str(), "_version");
                put_named(row, plan, ver_column.as_str(), store_version(h.1.as_str()));
            },
            None => {
                put_named_reference(row, plan, column.as_str(), field.1.as_str());
            },
        }
    } else if list_has(sources, field.0.as_str()) {
        put_named_reference(row, plan, column.as_str(), field.1.as_str());
    } else {
        put_named(row, plan, column.as_str(), SqlValue::Text(field.1.clone()));
    }
}

/// The row of a stats entry. `sources` are the columns of its table that refer
/// to other tables.
#[verifier::loop_isolation(false)]
pub fn fill_stats_row(
    plan: &TableInsertPlan,
    sources: &Vec<String>,
    entry: &ParsedStatsEntry,
    file_id: i64,
    source_id: i64,
) -> (r: Vec<SqlValue>)
    ensures
        r.deep_view() == stats_row(
            plan.deep_view(),
            sources.deep_view(),
            entry.deep_view(),
            file_id,
            source_id,
        ),
{
    let mut row = head_row(plan, file_id, source_id, entry.entry_name.as_str());
    put_named(&mut row, plan, "_type", SqlValue::Text(entry.entry_type.clone()));
    match &entry.entry_using {
        Some(u) => put_named_reference(&mut row, plan, "_using", u.as_str()),
        None => {},
    }
    let ghost all = entry.data.deep_view();
    let ghost start = row.deep_view();
    let mut i: usize = 0;
    while i < entry.data.len()
        invariant
            i <= entry.data@.len(),
            all == entry.data.deep_view(),
            row.deep_view() == with_fields(
                start,
                plan.deep_view(),
                sources.deep_view(),
                all.take(i as int),
            ),
        decreases entry.data@.len() - i,
    {
        assert(all.take(i + 1).drop_last() =~= all.take(i as int));
        assert(all[i as int] == entry.data@[i as int].deep_view());
        put_field(&mut row, plan, sources, &entry.data[i]);
        i += 1;
    }
    assert(all.take(i as int) =~= all);
    row
}

/// The row of an equipment set.
pub fn fill_equipment_row(plan: &TableInsertPlan, name: &str, file_id: i64, source_id: i64) -> (r:
    Vec<SqlValue>)
    ensures
        r.deep_view() == headed_row(plan.deep_view(), file_id, source_id, name@),
{
    head_row(plan, file_id, source_id, name)
}

} // verus!
