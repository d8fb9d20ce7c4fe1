//! The journal of edits in a staging database: how edits are undone and done
//! again.

use vstd::prelude::*;
use vstd::string::*;
use crate::discovery::glued;
use crate::schema::{DiscoveredSchema, SchemaModel};
use crate::sql;
use crate::sql::{list_marks, list_names, opt_value, text_value, Statement, StatementModel};
use crate::staging;
use crate::staging::{delete_query, json_value_to_sql, staging_get_row, staging_set_meta, Json,
    JsonModel, Stored, StoredModel};
use crate::text;
use crate::text::{int_text, join, owned, parse_i64, text_eq};
use crate::textmap;
use crate::types::{SqlModel, SqlValue};

verus! {

// ---------------------------------------------------------------------------
// Rows in the journal
// ---------------------------------------------------------------------------

/// The members of the JSON object that a text denotes, or what is wrong with the
/// text: what `serde_json::from_str` yields.
pub uninterp spec fn object_of(json: Seq<char>) -> Result<Seq<(Seq<char>, JsonModel)>, Seq<char>>;

/// Calls `serde_json::from_str` for an object and takes over its members in the
/// order of `serde_json::Map`: of a number the integer where it is one of 64
/// bits and its text otherwise, of a list or an object the text, and of an error
/// its message. What a text denotes is left to `serde_json`; the result depends
/// on the text alone.
#[verifier::external_body]
fn parse_object(json: &str) -> (r: Result<Vec<(String, Json)>, String>)
    ensures
        match r {
            Ok(members) => object_of(json@) == Ok::<
                Seq<(Seq<char>, JsonModel)>,
                Seq<char>,
            >(members.deep_view()),
            Err(e) => object_of(json@) == Err::<Seq<(Seq<char>, JsonModel)>, Seq<char>>(e@),
        },
{
    let parsed: Result<serde_json::Map<String, serde_json::Value>, serde_json::Error> =
        serde_json::from_str(json);
    let convert = |v: serde_json::Value| match v {
        serde_json::Value::Null => Json::Null,
        serde_json::Value::Bool(b) => Json::Bool(b),
        serde_json::Value::Number(n) => n.as_i64().map_or_else(|| Json::Real(n.to_string()), Json::Integer),
        serde_json::Value::String(s) => Json::Text(s),
        other => Json::Nested(other.to_string()),
    };
    parsed.map(|m| m.into_iter().map(|(k, v)| (k, convert(v))).collect()).map_err(|e| e.to_string())
}

/// The text of a JSON object of given members, or what is wrong with them: what
/// `serde_json::to_string` yields.
pub uninterp spec fn object_text(cells: Seq<(Seq<char>, JsonModel)>) -> Result<
    Seq<char>,
    Seq<char>,
>;

/// Whether a cell is written to JSON and read back as it is.
pub open spec fn reads_back(v: JsonModel) -> bool {
    v is Null || v is Bool || v is Integer || v is Text
}

/// Whether two lists of members give each key the same value.
pub open spec fn same_members(a: Seq<(Seq<char>, JsonModel)>, b: Seq<(Seq<char>, JsonModel)>) -> bool {
    forall|k: Seq<char>| #[trigger] textmap::value_of(a, k) == textmap::value_of(b, k)
}

/// Whether members under distinct keys are written to JSON and read back as they
/// are.
pub open spec fn all_read_back(cells: Seq<(Seq<char>, JsonModel)>) -> bool {
    &&& textmap::distinct(cells)
    &&& forall|i: int| 0 <= i < cells.len() ==> reads_back((#[trigger] cells[i]).1)
}

/// Whether a text was written that denotes given members, each key once.
pub open spec fn gives_back(r: Result<String, String>, cells: Seq<(Seq<char>, JsonModel)>) -> bool {
    &&& r matches Ok(s)
    &&& object_of(s@) matches Ok(members)
    &&& textmap::distinct(members)
    &&& same_members(members, cells)
}

/// Calls `serde_json::to_string` for an object of given members, each of which
/// `serde_json::value::to_raw_value` wrote, or
/// `serde_json::value::RawValue::from_string` took over where it is JSON already.
/// How JSON is written is left to `serde_json`; the result depends on the members
/// alone. Members under distinct keys, none of which is a real number, a list or
/// an object, are written, and `serde_json::from_str` reads them back, each key
/// once and with its value. In which order they come back, and whether a real
/// number comes back to the last digit, is left unsaid.
#[verifier::external_body]
fn write_object(cells: &Vec<(String, Json)>) -> (r: Result<String, String>)
    ensures
        match r {
            Ok(s) => object_text(cells.deep_view()) == Ok::<Seq<char>, Seq<char>>(s@),
            Err(e) => object_text(cells.deep_view()) == Err::<Seq<char>, Seq<char>>(e@),
        },
        all_read_back(cells.deep_view()) ==> gives_back(r, cells.deep_view()),
{
    let raw = |v: &Json| match v {
        Json::Null => serde_json::value::to_raw_value(&()),
        Json::Bool(b) => serde_json::value::to_raw_value(b),
        Json::Integer(n) => serde_json::value::to_raw_value(n),
        Json::Text(s) => serde_json::value::to_raw_value(s),
        Json::Real(s) | Json::Nested(s) => serde_json::value::RawValue::from_string(s.clone()),
    };
    let members: Result<std::collections::BTreeMap<&String, _>, serde_json::Error> =
        cells.iter().map(|(k, v)| raw(v).map(|r| (k, r))).collect();
    members.and_then(|m| serde_json::to_string(&m)).map_err(|e| e.to_string())
}

/// The statement that puts a row of given cells into a table, in the place of
/// one with the same key.
pub open spec fn insert_cells(table: Seq<char>, cells: Seq<(Seq<char>, JsonModel)>) -> StatementModel {
    StatementModel {
        what: "Insert from JSON into "@ + table,
        sql: "INSERT OR REPLACE INTO "@ + sql::quoted(table) + " ("@ + sql::name_list(
            textmap::keys_of(cells),
        ) + ") VALUES ("@ + sql::mark_list(1, cells.len()) + ")"@,
        params: Seq::new(cells.len(), |i: int| staging::json_stored(cells[i].1)),
    }
}

/// The statement that puts a row of given cells into a table.
#[verifier::loop_isolation(false)]
pub fn insert_row(table: &str, cells: &Vec<(String, Json)>) -> (r: Statement)
    ensures
        r.deep_view() == insert_cells(table@, cells.deep_view()),
{
    let ghost all = cells.deep_view();
    let ghost keys = textmap::keys_of(all);
    let ghost want = Seq::new(all.len(), |i: int| staging::json_stored(all[i].1));
    let mut names: Vec<String> = Vec::new();
    let mut params: Vec<SqlValue> = Vec::new();
    assert(names.deep_view() =~= keys.take(0));
    assert(params.deep_view() =~= want.take(0));
    assert(all.len() == cells@.len());
    let mut i: usize = 0;
    while i < cells.len()
        invariant
            i <= cells@.len(),
            all == cells.deep_view(),
            names.deep_view() == keys.take(i as int),
            params.deep_view() == want.take(i as int),
        decreases cells@.len() - i,
    {
        assert(all[i as int] == (cells@[i as int].0@, cells@[i as int].1.deep_view()));
        assert(keys[i as int] == cells@[i as int].0@);
        let ghost old_names = names.deep_view();
        let ghost old_params = params.deep_view();
        let name = cells[i].0.clone();
        names.push(name);
        assert(names.deep_view() =~= old_names.push(name@));
        let value = json_value_to_sql(&cells[i].1);
        params.push(value);
        assert(params.deep_view() =~= old_params.push(value.deep_view()));
        assert(keys.take(i + 1) =~= keys.take(i as int).push(keys[i as int]));
        assert(want.take(i + 1) =~= want.take(i as int).push(want[i as int]));
        i += 1;
    }
    assert(keys.take(i as int) =~= keys);
    assert(want.take(i as int) =~= want);
    let mut s = owned("INSERT OR REPLACE INTO ");
    s.append(sql::quote(table).as_str());
    s.append(" (");
    s.append(list_names(&names).as_str());
    s.append(") VALUES (");
    s.append(list_marks(1, cells.len()).as_str());
    s.append(")");
    Statement { what: glued("Insert from JSON into ", table), sql: s, params }
}

/// The cells of a row but for its key, each set to a parameter.
pub open spec fn cell_sets(cells: Seq<(Seq<char>, JsonModel)>, pk: Seq<char>) -> Seq<Seq<char>>
    decreases cells.len(),
{
    if cells.len() == 0 {
        Seq::empty()
    } else {
        let before = cell_sets(cells.drop_last(), pk);
        if cells.last().0 == pk {
            before
        } else {
            before.push(sql::quoted(cells.last().0) + " = ?"@)
        }
    }
}

/// The values of the cells of a row but for its key.
pub open spec fn cell_values(cells: Seq<(Seq<char>, JsonModel)>, pk: Seq<char>) -> Seq<SqlModel>
    decreases cells.len(),
{
    if cells.len() == 0 {
        Seq::empty()
    } else {
        let before = cell_values(cells.drop_last(), pk);
        if cells.last().0 == pk {
            before
        } else {
            before.push(staging::json_stored(cells.last().1))
        }
    }
}

/// The statement that sets the cells of a row but for its key, if there are any.
pub open spec fn update_cells(
    table: Seq<char>,
    pk_column: Seq<char>,
    pk: Seq<char>,
    cells: Seq<(Seq<char>, JsonModel)>,
) -> Option<StatementModel> {
    let sets = cell_sets(cells, pk_column);
    if sets.len() == 0 {
        None
    } else {
        Some(
            StatementModel {
                what: "Update from JSON in "@ + table,
                sql: "UPDATE "@ + sql::quoted(table) + " SET "@ + text::joined(sets, ", "@)
                    + " WHERE "@ + sql::quoted(pk_column) + " = ?"@,
                params: cell_values(cells, pk_column).push(SqlModel::Text(pk)),
            },
        )
    }
}

/// The statement that sets the cells of a row but for its key, if there are any.
#[verifier::loop_isolation(false)]
pub fn update_row(table: &str, pk_column: &str, pk: &str, cells: &Vec<(String, Json)>) -> (r:
    Option<Statement>)
    ensures
        r.deep_view() == update_cells(table@, pk_column@, pk@, cells.deep_view()),
{
    let ghost all = cells.deep_view();
    let mut sets: Vec<String> = Vec::new();
    let mut params: Vec<SqlValue> = Vec::new();
    assert(sets.deep_view() =~= cell_sets(all.take(0), pk_column@));
    assert(params.deep_view() =~= cell_values(all.take(0), pk_column@));
    let mut i: usize = 0;
    while i < cells.len()
        invariant
            i <= cells@.len(),
            all == cells.deep_view(),
            sets.deep_view() == cell_sets(all.take(i as int), pk_column@),
            params.deep_view() == cell_values(all.take(i as int), pk_column@),
        decreases cells@.len() - i,
    {
        assert(all.take(i + 1).drop_last() =~= all.take(i as int));
        let c = &cells[i];
        assert(all[i as int] == (c.0@, c.1.deep_view()));
        let ghost old_sets = sets.deep_view();
        let ghost old_params = params.deep_view();
        if !text_eq(c.0.as_str(), pk_column) {
            let set = glued(sql::quote(c.0.as_str()).as_str(), " = ?");
            sets.push(set);
            assert(sets.deep_view() =~= old_sets.push(set@));
            let value = json_value_to_sql(&c.1);
            params.push(value);
            assert(params.deep_view() =~= old_params.push(value.deep_view()));
        }
        i += 1;
    }
    assert(all.take(i as int) =~= all);
    assert(sets.deep_view().len() == sets@.len());
    if sets.len() == 0 {
        return None;
    }
    let ghost before = params.deep_view();
    let key = text_value(pk);
    params.push(key);
    assert(params.deep_view() =~= before.push(key.deep_view()));
    let mut s = owned("UPDATE ");
    s.append(sql::quote(table).as_str());
    s.append(" SET ");
    s.append(join(&sets, ", ").as_str());
    s.append(" WHERE ");
    s.append(sql::quote(pk_column).as_str());
    s.append(" = ?");
    Some(Statement { what: glued("Update from JSON in ", table), sql: s, params })
}

/// The statement that puts the row that a text denotes into a table. It fails
/// where the text is not a JSON object.
pub fn insert_row_from_json(table: &str, json: &str) -> (r: Result<Statement, String>)
    ensures
        match object_of(json@) {
            Ok(cells) => r matches Ok(s) && s.deep_view() == insert_cells(table@, cells),
            Err(e) => r matches Err(f) && f@ == "Parse row JSON for insert: "@ + e,
        },
{
    match parse_object(json) {
        Ok(cells) => Ok(insert_row(table, &cells)),
        Err(e) => Err(glued("Parse row JSON for insert: ", e.as_str())),
    }
}

/// The statement that sets the cells of a row, but for its key, to those of the
/// row that a text denotes, if there are any. It fails where the text is not a
/// JSON object.
pub fn update_row_from_json(table: &str, pk_column: &str, pk: &str, json: &str) -> (r: Result<
    Option<Statement>,
    String,
>)
    ensures
        match object_of(json@) {
            Ok(cells) => r matches Ok(s) && s.deep_view() == update_cells(
                table@,
                pk_column@,
                pk@,
                cells,
            ),
            Err(e) => r matches Err(f) && f@ == "Parse row JSON for update: "@ + e,
        },
{
    match parse_object(json) {
        Ok(cells) => Ok(update_row(table, pk_column, pk, &cells)),
        Err(e) => Err(glued("Parse row JSON for update: ", e.as_str())),
    }
}

// ---------------------------------------------------------------------------
// Replaying an edit
// ---------------------------------------------------------------------------

/// How an edit is replayed: the row is taken out, put in, or set.
pub enum Replay {
    Remove,
    Put { row: Seq<char> },
    Change { row: Seq<char> },
}

/// What undoes an edit that turned the old row into the new one: an edit without
/// either cannot be undone.
pub open spec fn undoing(old_row: Option<Seq<char>>, new_row: Option<Seq<char>>) -> Option<Replay> {
    match (old_row, new_row) {
        (None, Some(_)) => Some(Replay::Remove),
        (Some(o), None) => Some(Replay::Put { row: o }),
        (Some(o), Some(_)) => Some(Replay::Change { row: o }),
        (None, None) => None,
    }
}

/// What does an edit again.
pub open spec fn redoing(old_row: Option<Seq<char>>, new_row: Option<Seq<char>>) -> Option<Replay> {
    undoing(new_row, old_row)
}

/// What a replay does to a row.
#[derive(Debug)]
pub struct ReplayStep {
    pub action: &'static str,
    /// Nothing is to be done where the row has no cell but its key.
    pub statement: Option<Statement>,
}

/// What a replay step says.
pub struct StepModel {
    pub action: Seq<char>,
    pub statement: Option<StatementModel>,
}

impl DeepView for ReplayStep {
    type V = StepModel;

    open spec fn deep_view(&self) -> StepModel {
        StepModel { action: self.action@, statement: self.statement.deep_view() }
    }
}

/// The key column of a table; one that the schema does not have is keyed by
/// `UUID`.
pub open spec fn replay_key(schema: SchemaModel, table: Seq<char>) -> Seq<char> {
    match textmap::value_of(schema.tables, table) {
        Some(t) => t.pk_strategy.key_column(),
        None => "UUID"@,
    }
}

/// The step of a replay, which goes the `way` that its label says. It fails where there is nothing to replay, and where the
/// row in the journal is not a JSON object.
pub open spec fn step_of(
    way: Seq<char>,
    replay: Option<Replay>,
    table: Seq<char>,
    pk_column: Seq<char>,
    pk: Seq<char>,
) -> Result<StepModel, Seq<char>> {
    match replay {
        None => Err(
            "Invalid journal entry: both old_row and new_row are NULL for "@ + table + "."@ + pk,
        ),
        Some(Replay::Remove) => Ok(
            StepModel {
                action: "delete"@,
                statement: Some(
                    StatementModel {
                        what: way + " delete "@ + table + "."@ + pk,
                        sql: staging::delete_sql(table, pk_column),
                        params: seq![SqlModel::Text(pk)],
                    },
                ),
            },
        ),
        Some(Replay::Put { row }) => match object_of(row) {
            Ok(cells) => Ok(
                StepModel { action: "insert"@, statement: Some(insert_cells(table, cells)) },
            ),
            Err(e) => Err("Parse row JSON for insert: "@ + e),
        },
        Some(Replay::Change { row }) => match object_of(row) {
            Ok(cells) => Ok(
                StepModel {
                    action: "update"@,
                    statement: update_cells(table, pk_column, pk, cells),
                },
            ),
            Err(e) => Err("Parse row JSON for update: "@ + e),
        },
    }
}

/// Whether an executed step is the one that the model says.
pub open spec fn step_is(r: Result<ReplayStep, String>, want: Result<StepModel, Seq<char>>) -> bool {
    match r {
        Ok(s) => want == Ok::<StepModel, Seq<char>>(s.deep_view()),
        Err(e) => want == Err::<StepModel, Seq<char>>(e@),
    }
}

fn find_replay_key(schema: &DiscoveredSchema, table: &str) -> (r: &'static str)
    ensures
        r@ == replay_key(schema.deep_view(), table@),
{
    match schema.tables.get(table) {
        Some(t) => t.pk_strategy.pk_column(),
        None => "UUID",
    }
}

/// Takes the row from `from` to `to`: what a replay of an edit between the two
/// does, whichever way.
fn replay_entry(
    way: &str,
    table: &str,
    pk_column: &str,
    pk: &str,
    from: &Option<String>,
    to: &Option<String>,
) -> (r: Result<ReplayStep, String>)
    ensures
        step_is(
            r,
            step_of(way@, undoing(to.deep_view(), from.deep_view()), table@, pk_column@, pk@),
        ),
{
    match to {
        None => {
            if from.is_none() {
                let mut e = owned("Invalid journal entry: both old_row and new_row are NULL for ");
                e.append(table);
                e.append(".");
                e.append(pk);
                return Err(e);
            }
            let params: Vec<SqlValue> = vec![text_value(pk)];
            assert(params.deep_view() =~= seq![SqlModel::Text(pk@)]);
            let mut what = glued(way, " delete ");
            what.append(table);
            what.append(".");
            what.append(pk);
            let st = Statement {
                what,
                sql: delete_query(table, pk_column),
                params,
            };
            Ok(ReplayStep { action: "delete", statement: Some(st) })
        },
        Some(row) => {
            if from.is_none() {
                match insert_row_from_json(table, row.as_str()) {
                    Ok(st) => Ok(ReplayStep { action: "insert", statement: Some(st) }),
                    Err(e) => Err(e),
                }
            } else {
                match update_row_from_json(table, pk_column, pk, row.as_str()) {
                    Ok(statement) => Ok(ReplayStep { action: "update", statement }),
                    Err(e) => Err(e),
                }
            }
        },
    }
}

/// What undoes an entry of the journal.
pub fn replay_undo_entry(schema: &DiscoveredSchema, entry: &JournalEntry) -> (r: Result<
    ReplayStep,
    String,
>)
    ensures
        step_is(r, undo_step(schema.deep_view(), entry.deep_view())),
{
    let table = entry.table_name.as_str();
    let pk_column = find_replay_key(schema, table);
    replay_entry("Undo", table, pk_column, entry.pk_value.as_str(), &entry.new_row, &entry.old_row)
}

/// What does an entry of the journal again.
pub fn replay_redo_entry(schema: &DiscoveredSchema, entry: &JournalEntry) -> (r: Result<
    ReplayStep,
    String,
>)
    ensures
        step_is(r, redo_step(schema.deep_view(), entry.deep_view())),
{
    let table = entry.table_name.as_str();
    let pk_column = find_replay_key(schema, table);
    replay_entry("Redo", table, pk_column, entry.pk_value.as_str(), &entry.old_row, &entry.new_row)
}

// ---------------------------------------------------------------------------
// The journal
// ---------------------------------------------------------------------------

/// An entry of the journal: an edit of a row, with the row before and after it,
/// or a boundary between groups of edits.
#[derive(Debug)]
pub struct JournalEntry {
    pub id: i64,
    pub table_name: String,
    pub pk_value: String,
    pub old_row: Option<String>,
    pub new_row: Option<String>,
}

/// What an entry of the journal says.
pub struct EntryModel {
    pub id: int,
    pub table_name: Seq<char>,
    pub pk_value: Seq<char>,
    pub old_row: Option<Seq<char>>,
    pub new_row: Option<Seq<char>>,
}

impl DeepView for JournalEntry {
    type V = EntryModel;

    open spec fn deep_view(&self) -> EntryModel {
        EntryModel {
            id: self.id as int,
            table_name: self.table_name@,
            pk_value: self.pk_value@,
            old_row: self.old_row.deep_view(),
            new_row: self.new_row.deep_view(),
        }
    }
}

/// What undoes an entry of the journal.
pub open spec fn undo_step(schema: SchemaModel, e: EntryModel) -> Result<StepModel, Seq<char>> {
    step_of(
        "Undo"@,
        undoing(e.old_row, e.new_row),
        e.table_name,
        replay_key(schema, e.table_name),
        e.pk_value,
    )
}

/// What does an entry of the journal again.
pub open spec fn redo_step(schema: SchemaModel, e: EntryModel) -> Result<StepModel, Seq<char>> {
    step_of(
        "Redo"@,
        redoing(e.old_row, e.new_row),
        e.table_name,
        replay_key(schema, e.table_name),
        e.pk_value,
    )
}

/// Whether an entry is a boundary.
pub open spec fn is_boundary(e: EntryModel) -> bool {
    e.table_name == "__boundary__"@
}

/// The statement that records an edit.
pub fn staging_record_change(
    label: &str,
    table_name: &str,
    pk_value: &str,
    old_row: &Option<String>,
    new_row: &Option<String>,
) -> (r: Statement)
    ensures
        r.deep_view() == (StatementModel {
            what: "Record undo change"@,
            sql: "INSERT INTO _staging_undo_journal (label, table_name, pk_value, old_row, new_row) VALUES (?1, ?2, ?3, ?4, ?5)"@,
            params: seq![
                SqlModel::Text(label@),
                SqlModel::Text(table_name@),
                SqlModel::Text(pk_value@),
                sql::optional_value(old_row.deep_view()),
                sql::optional_value(new_row.deep_view()),
            ],
        }),
{
    let params: Vec<SqlValue> = vec![
        text_value(label),
        text_value(table_name),
        text_value(pk_value),
        opt_value(old_row),
        opt_value(new_row),
    ];
    assert(params.deep_view() =~= seq![
        SqlModel::Text(label@),
        SqlModel::Text(table_name@),
        SqlModel::Text(pk_value@),
        sql::optional_value(old_row.deep_view()),
        sql::optional_value(new_row.deep_view()),
    ]);
    Statement {
        what: owned("Record undo change"),
        sql: owned(
            "INSERT INTO _staging_undo_journal (label, table_name, pk_value, old_row, new_row) VALUES (?1, ?2, ?3, ?4, ?5)",
        ),
        params,
    }
}

/// The greatest boundary among entries that stands below `limit`, if any.
pub open spec fn boundary_below(journal: Seq<EntryModel>, limit: int) -> Option<int>
    decreases journal.len(),
{
    if journal.len() == 0 {
        None
    } else {
        let before = boundary_below(journal.drop_last(), limit);
        let e = journal.last();
        if is_boundary(e) && e.id < limit && (before is None || before->0 < e.id) {
            Some(e.id)
        } else {
            before
        }
    }
}

/// The least boundary among entries that stands above `limit`, if any.
pub open spec fn boundary_above(journal: Seq<EntryModel>, limit: int) -> Option<int>
    decreases journal.len(),
{
    if journal.len() == 0 {
        None
    } else {
        let before = boundary_above(journal.drop_last(), limit);
        let e = journal.last();
        if is_boundary(e) && e.id > limit && (before is None || before->0 > e.id) {
            Some(e.id)
        } else {
            before
        }
    }
}

/// The greatest boundary among entries that stands above `limit`, if any.
pub open spec fn last_boundary(journal: Seq<EntryModel>, limit: int) -> Option<int>
    decreases journal.len(),
{
    if journal.len() == 0 {
        None
    } else {
        let before = last_boundary(journal.drop_last(), limit);
        let e = journal.last();
        if is_boundary(e) && e.id > limit && (before is None || before->0 < e.id) {
            Some(e.id)
        } else {
            before
        }
    }
}

/// The edits between two boundaries.
pub open spec fn edits_between(journal: Seq<EntryModel>, low: int, high: int) -> Seq<EntryModel>
    decreases journal.len(),
{
    if journal.len() == 0 {
        Seq::empty()
    } else {
        let before = edits_between(journal.drop_last(), low, high);
        let e = journal.last();
        if low < e.id && e.id < high && !is_boundary(e) {
            before.push(e)
        } else {
            before
        }
    }
}

/// The place up to which edits are done, from what is noted of it: the number
/// noted, or else the greatest boundary; none where there is no boundary.
pub open spec fn pointer_of(noted: Option<Seq<char>>, max_boundary: i64) -> Result<
    Option<int>,
    Seq<char>,
> {
    match noted {
        Some(s) => match text::number_within(s, i64::MIN as int, i64::MAX as int) {
            Some(n) => Ok(Some(n)),
            None => Err("Invalid undo_pointer: "@ + s),
        },
        None => if max_boundary == 0 {
            Ok(None)
        } else {
            Ok(Some(max_boundary as int))
        },
    }
}

/// The place up to which edits are done, from what is noted of it and the
/// greatest boundary, or zero where there is none.
pub fn get_undo_pointer(noted: &Option<String>, max_boundary: i64) -> (r: Result<
    Option<i64>,
    String,
>)
    ensures
        match r {
            Ok(p) => pointer_of(noted.deep_view(), max_boundary) == Ok::<Option<int>, Seq<char>>(
                match p {
                    Some(n) => Some(n as int),
                    None => None,
                },
            ),
            Err(e) => pointer_of(noted.deep_view(), max_boundary) == Err::<
                Option<int>,
                Seq<char>,
            >(e@),
        },
{
    match noted {
        Some(s) => match parse_i64(s.as_str()) {
            Some(n) => Ok(Some(n)),
            None => Err(glued("Invalid undo_pointer: ", s.as_str())),
        },
        None => if max_boundary == 0 {
            Ok(None)
        } else {
            Ok(Some(max_boundary))
        },
    }
}

/// What is to be done to undo or redo a group of edits.
#[derive(Debug)]
pub struct ReplayPlan {
    /// The edits, in the order in which they are replayed: their places in the
    /// journal.
    pub edits: Vec<usize>,
    /// The statement that moves the place up to which edits are done, where it
    /// moves.
    pub move_pointer: Option<Statement>,
}

/// The statement that notes, or forgets, up to where edits are done.
pub open spec fn pointer_note(place: Option<int>) -> StatementModel {
    match place {
        Some(n) => staging::set_meta_model("undo_pointer"@, text::decimal_int(n)),
        None => StatementModel {
            what: "Clear undo pointer"@,
            sql: "DELETE FROM _staging_authoring WHERE key = 'undo_pointer'"@,
            params: Seq::empty(),
        },
    }
}

/// The statement that notes, or forgets, up to where edits are done.
pub fn note_pointer(place: Option<i64>) -> (r: Statement)
    ensures
        r.deep_view() == pointer_note(
            match place {
                Some(n) => Some(n as int),
                None => None,
            },
        ),
{
    match place {
        Some(n) => staging_set_meta("undo_pointer", int_text(n).as_str()),
        None => {
            let params: Vec<SqlValue> = Vec::new();
            assert(params.deep_view() =~= Seq::<SqlModel>::empty());
            Statement {
                what: owned("Clear undo pointer"),
                sql: owned("DELETE FROM _staging_authoring WHERE key = 'undo_pointer'"),
                params,
            }
        },
    }
}

/// The statement that takes the edits of a table out of the journal.
pub fn forget_edits(table: &str) -> (r: Statement)
    ensures
        r.deep_view() == (StatementModel {
            what: sql::naming("Clear undo journal for"@, table@),
            sql: "DELETE FROM _staging_undo_journal WHERE table_name = ?1"@,
            params: seq![SqlModel::Text(table@)],
        }),
{
    let params: Vec<SqlValue> = vec![text_value(table)];
    assert(params.deep_view() =~= seq![SqlModel::Text(table@)]);
    Statement {
        what: sql::name_in("Clear undo journal for", table),
        sql: owned("DELETE FROM _staging_undo_journal WHERE table_name = ?1"),
        params,
    }
}

/// The statement that notes up to where edits are done once edits were taken out
/// of the journal: up to the greatest boundary that is left, if any.
pub fn reset_pointer(max_boundary: i64) -> (r: Statement)
    ensures
        r.deep_view() == pointer_note(
            if max_boundary > 0 {
                Some(max_boundary as int)
            } else {
                None
            },
        ),
{
    if max_boundary > 0 {
        note_pointer(Some(max_boundary))
    } else {
        note_pointer(None)
    }
}

fn entry_is_boundary(e: &JournalEntry) -> (r: bool)
    ensures
        r == is_boundary(e.deep_view()),
{
    text_eq(e.table_name.as_str(), "__boundary__")
}

#[verifier::loop_isolation(false)]
fn find_below(journal: &Vec<JournalEntry>, limit: i64) -> (r: Option<i64>)
    ensures
        match r {
            Some(n) => boundary_below(journal.deep_view(), limit as int) == Some(n as int),
            None => boundary_below(journal.deep_view(), limit as int) is None,
        },
{
    let ghost all = journal.deep_view();
    let mut best: Option<i64> = None;
    assert(all.take(0) =~= Seq::<EntryModel>::empty());
    let mut i: usize = 0;
    while i < journal.len()
        invariant
            i <= journal@.len(),
            all == journal.deep_view(),
            match best {
                Some(n) => boundary_below(all.take(i as int), limit as int) == Some(n as int),
                None => boundary_below(all.take(i as int), limit as int) is None,
            },
        decreases journal@.len() - i,
    {
        assert(all.take(i + 1).drop_last() =~= all.take(i as int));
        let e = &journal[i];
        assert(all[i as int] == e.deep_view());
        if entry_is_boundary(e) && e.id < limit {
            match best {
                Some(n) => {
                    if n < e.id {
                        best = Some(e.id);
                    }
                },
                None => {
                    best = Some(e.id);
                },
            }
        }
        i += 1;
    }
    assert(all.take(i as int) =~= all);
    best
}

#[verifier::loop_isolation(false)]
fn find_above(journal: &Vec<JournalEntry>, limit: i64) -> (r: Option<i64>)
    ensures
        match r {
            Some(n) => boundary_above(journal.deep_view(), limit as int) == Some(n as int),
            None => boundary_above(journal.deep_view(), limit as int) is None,
        },
{
    let ghost all = journal.deep_view();
    let mut best: Option<i64> = None;
    assert(all.take(0) =~= Seq::<EntryModel>::empty());
    let mut i: usize = 0;
    while i < journal.len()
        invariant
            i <= journal@.len(),
            all == journal.deep_view(),
            match best {
                Some(n) => boundary_above(all.take(i as int), limit as int) == Some(n as int),
                None => boundary_above(all.take(i as int), limit as int) is None,
            },
        decreases journal@.len() - i,
    {
        assert(all.take(i + 1).drop_last() =~= all.take(i as int));
        let e = &journal[i];
        assert(all[i as int] == e.deep_view());
        if entry_is_boundary(e) && e.id > limit {
            match best {
                Some(n) => {
                    if n > e.id {
                        best = Some(e.id);
                    }
                },
                None => {
                    best = Some(e.id);
                },
            }
        }
        i += 1;
    }
    assert(all.take(i as int) =~= all);
    best
}

#[verifier::loop_isolation(false)]
fn find_last(journal: &Vec<JournalEntry>, limit: i64) -> (r: Option<i64>)
    ensures
        match r {
            Some(n) => last_boundary(journal.deep_view(), limit as int) == Some(n as int),
            None => last_boundary(journal.deep_view(), limit as int) is None,
        },
{
    let ghost all = journal.deep_view();
    let mut best: Option<i64> = None;
    assert(all.take(0) =~= Seq::<EntryModel>::empty());
    let mut i: usize = 0;
    while i < journal.len()
        invariant
            i <= journal@.len(),
            all == journal.deep_view(),
            match best {
                Some(n) => last_boundary(all.take(i as int), limit as int) == Some(n as int),
                None => last_boundary(all.take(i as int), limit as int) is None,
            },
        decreases journal@.len() - i,
    {
        assert(all.take(i + 1).drop_last() =~= all.take(i as int));
        let e = &journal[i];
        assert(all[i as int] == e.deep_view());
        if entry_is_boundary(e) && e.id > limit {
            match best {
                Some(n) => {
                    if n < e.id {
                        best = Some(e.id);
                    }
                },
                None => {
                    best = Some(e.id);
                },
            }
        }
        i += 1;
    }
    assert(all.take(i as int) =~= all);
    best
}

/// The entries at the given places.
pub open spec fn entries_at(journal: Seq<EntryModel>, places: Seq<usize>) -> Seq<EntryModel> {
    places.map_values(|p: usize| journal[p as int])
}

#[verifier::loop_isolation(false)]
fn find_edits(journal: &Vec<JournalEntry>, low: i64, high: i64) -> (r: Vec<usize>)
    ensures
        forall|k: int| 0 <= k < r@.len() ==> (#[trigger] r@[k]) < journal@.len(),
        entries_at(journal.deep_view(), r@) == edits_between(
            journal.deep_view(),
            low as int,
            high as int,
        ),
{
    let ghost all = journal.deep_view();
    let mut r: Vec<usize> = Vec::new();
    assert(entries_at(all, r@) =~= edits_between(all.take(0), low as int, high as int));
    let mut i: usize = 0;
    while i < journal.len()
        invariant
            i <= journal@.len(),
            all == journal.deep_view(),
            forall|k: int| 0 <= k < r@.len() ==> (#[trigger] r@[k]) < journal@.len(),
            entries_at(all, r@) == edits_between(all.take(i as int), low as int, high as int),
        decreases journal@.len() - i,
    {
        assert(all.take(i + 1).drop_last() =~= all.take(i as int));
        let e = &journal[i];
        assert(all[i as int] == e.deep_view());
        let ghost before = entries_at(all, r@);
        if low < e.id && e.id < high && !entry_is_boundary(e) {
            r.push(i);
            assert(entries_at(all, r@) =~= before.push(all[i as int]));
        }
        i += 1;
    }
    assert(all.take(i as int) =~= all);
    r
}

#[verifier::loop_isolation(false)]
fn backwards(places: &Vec<usize>) -> (r: Vec<usize>)
    ensures
        r@ == places@.reverse(),
{
    let mut r: Vec<usize> = Vec::new();
    let mut i: usize = places.len();
    assert(r@ =~= places@.reverse().take(0));
    while i > 0
        invariant
            i <= places@.len(),
            r@ == places@.reverse().take(places@.len() - i),
        decreases i,
    {
        i -= 1;
        r.push(places[i]);
        assert(places@.reverse()[places@.len() - 1 - i] == places@[i as int]);
        assert(r@ =~= places@.reverse().take(places@.len() - i));
    }
    assert(r@ =~= places@.reverse());
    r
}

/// The place before a group of edits: the boundary before it, or the start of the
/// journal.
pub open spec fn place_below(journal: Seq<EntryModel>, pointer: int) -> int {
    match boundary_below(journal, pointer) {
        Some(b) => b,
        None => 0,
    }
}

/// The edits that an undo reverts, the last one first: those between the place
/// up to which edits are done and the place before them.
pub open spec fn undone(journal: Seq<EntryModel>, pointer: int) -> Seq<EntryModel> {
    edits_between(journal, place_below(journal, pointer), pointer).reverse()
}

/// The group of edits to undo, and where the pointer goes: to the boundary
/// before, or to the start of the journal. Nothing is undone where there is no
/// boundary.
pub fn staging_undo(journal: &Vec<JournalEntry>, pointer: Option<i64>) -> (r: ReplayPlan)
    ensures
        forall|k: int| 0 <= k < r.edits@.len() ==> (#[trigger] r.edits@[k]) < journal@.len(),
        match pointer {
            None => r.edits@.len() == 0 && r.move_pointer is None,
            Some(p) => {
                &&& entries_at(journal.deep_view(), r.edits@) == undone(
                    journal.deep_view(),
                    p as int,
                )
                &&& r.move_pointer.deep_view() == Some(
                    pointer_note(Some(place_below(journal.deep_view(), p as int))),
                )
            },
        },
{
    let p: i64 = match pointer {
        Some(p) => p,
        None => {
            return ReplayPlan { edits: Vec::new(), move_pointer: None };
        },
    };
    let low: i64 = match find_below(journal, p) {
        Some(b) => b,
        None => 0,
    };
    let group = find_edits(journal, low, p);
    let edits = backwards(&group);
    proof {
        let all = journal.deep_view();
        assert(entries_at(all, group@.reverse()) =~= entries_at(all, group@).reverse());
        assert forall|k: int| 0 <= k < edits@.len() implies (#[trigger] edits@[k])
            < journal@.len() by {
            assert(edits@[k] == group@[group@.len() - 1 - k]);
        }
    }
    ReplayPlan { edits, move_pointer: Some(note_pointer(Some(low))) }
}

/// The edits that a redo does again, in order: those between the place up to
/// which edits are done and the boundary after it.
pub open spec fn redone(journal: Seq<EntryModel>, pointer: int) -> Seq<EntryModel> {
    match boundary_above(journal, pointer) {
        Some(b) => edits_between(journal, pointer, b),
        None => Seq::empty(),
    }
}

/// The group of edits to do again, and where the pointer goes: to the boundary
/// after. Nothing is done where there is no boundary after.
pub fn staging_redo(journal: &Vec<JournalEntry>, pointer: Option<i64>) -> (r: ReplayPlan)
    ensures
        forall|k: int| 0 <= k < r.edits@.len() ==> (#[trigger] r.edits@[k]) < journal@.len(),
        ({
            let p = match pointer {
                Some(p) => p as int,
                None => 0,
            };
            &&& entries_at(journal.deep_view(), r.edits@) == redone(journal.deep_view(), p)
            &&& r.move_pointer.deep_view() == match boundary_above(journal.deep_view(), p) {
                Some(b) => Some(pointer_note(Some(b))),
                None => None,
            }
        }),
{
    let p: i64 = match pointer {
        Some(p) => p,
        None => 0,
    };
    match find_above(journal, p) {
        Some(b) => ReplayPlan {
            edits: find_edits(journal, p, b),
            move_pointer: Some(note_pointer(Some(b))),
        },
        None => {
            let edits: Vec<usize> = Vec::new();
            assert(entries_at(journal.deep_view(), edits@) =~= Seq::<EntryModel>::empty());
            ReplayPlan { edits, move_pointer: None }
        },
    }
}

/// What was replayed on a row.
#[derive(Debug, Clone)]
pub struct UndoReplayEntry {
    pub table_name: String,
    pub pk_value: String,
    /// `insert`, `update` or `delete`
    pub action: String,
}

/// What a replayed row says.
pub struct ReplayedModel {
    pub table_name: Seq<char>,
    pub pk_value: Seq<char>,
    pub action: Seq<char>,
}

impl DeepView for UndoReplayEntry {
    type V = ReplayedModel;

    open spec fn deep_view(&self) -> ReplayedModel {
        ReplayedModel {
            table_name: self.table_name@,
            pk_value: self.pk_value@,
            action: self.action@,
        }
    }
}

/// The replay of a group of edits.
#[derive(Debug)]
pub struct ReplayScript {
    /// The statements to run, in order.
    pub statements: Vec<Statement>,
    /// The rows that they change, in order.
    pub replayed: Vec<UndoReplayEntry>,
    /// Why the replay stops before its end, where it does.
    pub failure: Option<String>,
}

/// What the replay of a group of edits says.
pub struct ScriptModel {
    pub statements: Seq<StatementModel>,
    pub replayed: Seq<ReplayedModel>,
    pub failure: Option<Seq<char>>,
}

impl DeepView for ReplayScript {
    type V = ScriptModel;

    open spec fn deep_view(&self) -> ScriptModel {
        ScriptModel {
            statements: self.statements.deep_view(),
            replayed: self.replayed.deep_view(),
            failure: self.failure.deep_view(),
        }
    }
}

/// What undoes an edit, or does it again.
pub open spec fn edit_step(schema: SchemaModel, e: EntryModel, back: bool) -> Result<
    StepModel,
    Seq<char>,
> {
    if back {
        undo_step(schema, e)
    } else {
        redo_step(schema, e)
    }
}

/// The replay of edits in order, up to the first that cannot be replayed.
pub open spec fn script_of(schema: SchemaModel, edits: Seq<EntryModel>, back: bool) -> ScriptModel
    decreases edits.len(),
{
    if edits.len() == 0 {
        ScriptModel { statements: Seq::empty(), replayed: Seq::empty(), failure: None }
    } else {
        let before = script_of(schema, edits.drop_last(), back);
        let e = edits.last();
        if before.failure is Some {
            before
        } else {
            match edit_step(schema, e, back) {
                Err(why) => ScriptModel { failure: Some(why), ..before },
                Ok(step) => ScriptModel {
                    statements: match step.statement {
                        Some(st) => before.statements.push(st),
                        None => before.statements,
                    },
                    replayed: before.replayed.push(
                        ReplayedModel {
                            table_name: e.table_name,
                            pk_value: e.pk_value,
                            action: step.action,
                        },
                    ),
                    failure: None,
                },
            }
        }
    }
}

/// A replay that has stopped does not go on.
proof fn lemma_script_stops(schema: SchemaModel, edits: Seq<EntryModel>, back: bool, n: int)
    requires
        0 <= n <= edits.len(),
        script_of(schema, edits.take(n), back).failure is Some,
    ensures
        script_of(schema, edits, back) == script_of(schema, edits.take(n), back),
    decreases edits.len(),
{
    if n == edits.len() {
        assert(edits.take(n) =~= edits);
    } else {
        assert(edits.drop_last().take(n) =~= edits.take(n));
        lemma_script_stops(schema, edits.drop_last(), back, n);
    }
}

/// The replay of a group of edits, either back or forth. It stops at the first
/// edit that cannot be replayed.
#[verifier::loop_isolation(false)]
pub fn replay_edits(
    schema: &DiscoveredSchema,
    journal: &Vec<JournalEntry>,
    plan: &ReplayPlan,
    back: bool,
) -> (r: ReplayScript)
    requires
        forall|k: int| 0 <= k < plan.edits@.len() ==> (#[trigger] plan.edits@[k]) < journal@.len(),
    ensures
        r.deep_view() == script_of(
            schema.deep_view(),
            entries_at(journal.deep_view(), plan.edits@),
            back,
        ),
{
    let ghost sm = schema.deep_view();
    let ghost all = entries_at(journal.deep_view(), plan.edits@);
    let mut statements: Vec<Statement> = Vec::new();
    let mut replayed: Vec<UndoReplayEntry> = Vec::new();
    assert(statements.deep_view() =~= Seq::<StatementModel>::empty());
    assert(replayed.deep_view() =~= Seq::<ReplayedModel>::empty());
    let mut i: usize = 0;
    while i < plan.edits.len()
        invariant
            i <= plan.edits@.len(),
            all == entries_at(journal.deep_view(), plan.edits@),
            script_of(sm, all.take(i as int), back) == (ScriptModel {
                statements: statements.deep_view(),
                replayed: replayed.deep_view(),
                failure: None,
            }),
        decreases plan.edits@.len() - i,
    {
        assert(all.take(i + 1).drop_last() =~= all.take(i as int));
        let entry = &journal[plan.edits[i]];
        assert(all[i as int] == entry.deep_view());
        let ghost statements_before = statements.deep_view();
        let ghost replayed_before = replayed.deep_view();
        let step = if back {
            replay_undo_entry(schema, entry)
        } else {
            replay_redo_entry(schema, entry)
        };
        match step {
            Ok(step) => {
                let one = UndoReplayEntry {
                    table_name: entry.table_name.clone(),
                    pk_value: entry.pk_value.clone(),
                    action: owned(step.action),
                };
                match step.statement {
                    Some(st) => {
                        statements.push(st);
                        assert(statements.deep_view() =~= statements_before.push(st.deep_view()));
                    },
                    None => {},
                }
                replayed.push(one);
                assert(replayed.deep_view() =~= replayed_before.push(one.deep_view()));
            },
            Err(why) => {
                proof {
                    lemma_script_stops(sm, all, back, i + 1);
                }
                return ReplayScript { statements, replayed, failure: Some(why) };
            },
        }
        i += 1;
    }
    assert(all.take(i as int) =~= all);
    ReplayScript { statements, replayed, failure: None }
}

/// What is to be done to close a group of edits.
#[derive(Debug)]
pub struct SnapshotPlan {
    /// The statement that forgets undone groups, where there are some.
    pub prune: Option<Statement>,
    pub boundary: Statement,
}

/// The statement that forgets what stands above a place, up to a boundary.
pub open spec fn prune_model(pointer: int, last: int) -> StatementModel {
    StatementModel {
        what: "Prune redo"@,
        sql: "DELETE FROM _staging_undo_journal WHERE id > ?1 AND id <= ?2"@,
        params: seq![SqlModel::Integer(pointer), SqlModel::Integer(last)],
    }
}

/// The last boundary of the undone groups, which stand above the place up to which
/// edits are done.
pub open spec fn undone_end(journal: Seq<EntryModel>, pointer: Option<i64>) -> Option<int> {
    match pointer {
        Some(p) => last_boundary(journal, p as int),
        None => None,
    }
}

/// What closes a group of edits: undone groups are forgotten, and a boundary is
/// set. Edits behind the undone groups stay: they are the group. The number of the boundary is then noted as the place up to which edits
/// are done.
pub fn staging_snapshot(journal: &Vec<JournalEntry>, pointer: Option<i64>, label: &str) -> (r:
    SnapshotPlan)
    ensures
        r.prune.deep_view() == match undone_end(journal.deep_view(), pointer) {
            Some(last) => Some(prune_model(pointer->0 as int, last)),
            None => None,
        },
        r.boundary.deep_view() == (StatementModel {
            what: "Insert boundary"@,
            sql: "INSERT INTO _staging_undo_journal (label, table_name, pk_value, old_row, new_row) VALUES (?1, '__boundary__', '', NULL, NULL)"@,
            params: seq![SqlModel::Text(label@)],
        }),
{
    let params: Vec<SqlValue> = vec![text_value(label)];
    assert(params.deep_view() =~= seq![SqlModel::Text(label@)]);
    let boundary = Statement {
        what: owned("Insert boundary"),
        sql: owned(
            "INSERT INTO _staging_undo_journal (label, table_name, pk_value, old_row, new_row) VALUES (?1, '__boundary__', '', NULL, NULL)",
        ),
        params,
    };
    let prune = match pointer {
        Some(p) => match find_last(journal, p) {
            Some(last) => {
                let params: Vec<SqlValue> = vec![SqlValue::Integer(p), SqlValue::Integer(last)];
                assert(params.deep_view() =~= seq![
                    SqlModel::Integer(p as int),
                    SqlModel::Integer(last as int),
                ]);
                Some(
                    Statement {
                        what: owned("Prune redo"),
                        sql: owned(
                            "DELETE FROM _staging_undo_journal WHERE id > ?1 AND id <= ?2",
                        ),
                        params,
                    },
                )
            },
            None => None,
        },
        None => None,
    };
    SnapshotPlan { prune, boundary }
}

// ---------------------------------------------------------------------------
// What the journal promises
// ---------------------------------------------------------------------------

/// The rows of a staging database, by table and key.
pub type Rows = Map<(Seq<char>, Seq<char>), Map<Seq<char>, SqlModel>>;

/// The cells of a row as columns and stored values.
pub open spec fn row_of(cells: Seq<(Seq<char>, JsonModel)>) -> Map<Seq<char>, SqlModel>
    decreases cells.len(),
{
    if cells.len() == 0 {
        Map::empty()
    } else {
        row_of(cells.drop_last()).insert(cells.last().0, staging::json_stored(cells.last().1))
    }
}

/// The row that a text in the journal denotes.
pub open spec fn denoted(json: Seq<char>) -> Map<Seq<char>, SqlModel> {
    match object_of(json) {
        Ok(cells) => row_of(cells),
        Err(_) => Map::empty(),
    }
}

/// Whether a text in the journal denotes a row.
pub open spec fn keeps_row(json: Seq<char>, row: Map<Seq<char>, SqlModel>) -> bool {
    object_of(json) is Ok && denoted(json) == row
}

/// A row as the journal keeps it, from its first `n` columns: of bytes only a
/// note of their number.
pub open spec fn kept_row(names: Seq<Seq<char>>, values: Seq<StoredModel>, n: int) -> Map<
    Seq<char>,
    SqlModel,
>
    decreases n,
{
    if n <= 0 {
        Map::empty()
    } else {
        kept_row(names, values, n - 1).insert(
            names[n - 1],
            staging::json_stored(staging::stored_json(values[n - 1])),
        )
    }
}

/// The row of given cells under distinct names has each of them.
pub proof fn lemma_row_of(cells: Seq<(Seq<char>, JsonModel)>)
    requires
        textmap::distinct(cells),
    ensures
        forall|k: Seq<char>| #[trigger]
            row_of(cells).dom().contains(k) == textmap::value_of(cells, k) is Some,
        forall|k: Seq<char>|
            textmap::value_of(cells, k) is Some ==> #[trigger] row_of(cells)[k]
                == staging::json_stored(textmap::value_of(cells, k)->0),
    decreases cells.len(),
{
    if cells.len() > 0 {
        let d = cells.drop_last();
        let l = cells.last();
        assert forall|i: int, j: int| 0 <= i < j < d.len() implies #[trigger] d[i].0
            != #[trigger] d[j].0 by {
            assert(cells[i].0 != cells[j].0);
        }
        lemma_row_of(d);
        assert forall|k: Seq<char>| #[trigger] textmap::value_of(cells, k) == (if k == l.0 {
            Some(l.1)
        } else {
            textmap::value_of(d, k)
        }) by {
            textmap::lemma_key_pos(cells, k);
            textmap::lemma_key_pos(d, k);
            if k == l.0 {
                textmap::lemma_key_pos_is(cells, k, cells.len() - 1);
            } else {
                match textmap::key_pos(d, k) {
                    Some(i) => {
                        assert(cells[i].0 == k);
                        textmap::lemma_key_pos_is(cells, k, i);
                    },
                    None => {
                        if textmap::key_pos(cells, k) is Some {
                            let i = textmap::key_pos(cells, k)->0;
                            assert(d[i].0 == k);
                        }
                    },
                }
            }
        }
    }
}

proof fn lemma_kept_row(names: Seq<Seq<char>>, values: Seq<StoredModel>, n: int)
    ensures
        textmap::distinct(staging::json_row(names, values, n)),
        row_of(staging::json_row(names, values, n)) == kept_row(names, values, n),
    decreases n,
{
    let cells = staging::json_row(names, values, n);
    if n > 0 {
        lemma_kept_row(names, values, n - 1);
        let before = staging::json_row(names, values, n - 1);
        let k = names[n - 1];
        let v = staging::stored_json(values[n - 1]);
        textmap::law_with_value(before, k, v, k);
        lemma_row_of(before);
        lemma_row_of(cells);
        assert forall|o: Seq<char>| o != k implies #[trigger] textmap::value_of(cells, o)
            == textmap::value_of(before, o) by {
            textmap::law_with_value(before, k, v, o);
        }
        assert(row_of(cells) =~= kept_row(names, values, n));
    } else {
        assert(row_of(cells) =~= Map::empty());
    }
}

proof fn lemma_json_row_reads_back(names: Seq<Seq<char>>, values: Seq<StoredModel>, n: int)
    requires
        n <= values.len(),
        forall|i: int| 0 <= i < values.len() ==> !((#[trigger] values[i]) is Real),
    ensures
        forall|i: int|
            0 <= i < staging::json_row(names, values, n).len() ==> reads_back(
                (#[trigger] staging::json_row(names, values, n)[i]).1,
            ),
    decreases n,
{
    if n > 0 {
        lemma_json_row_reads_back(names, values, n - 1);
        let before = staging::json_row(names, values, n - 1);
        textmap::lemma_key_pos(before, names[n - 1]);
        assert(!(values[n - 1] is Real));
    }
}

/// The text that the journal keeps of a row. Where no cell is a real number, it
/// denotes the row.
pub fn capture_row_as_json(names: &Vec<String>, values: &Vec<Stored>) -> (r: Result<String, String>)
    requires
        names@.len() == values@.len(),
    ensures
        match object_text(
            staging::json_row(names.deep_view(), values.deep_view(), names@.len() as int),
        ) {
            Ok(s) => r matches Ok(t) && t@ == s,
            Err(e) => r matches Err(f) && f@ == "Serialize captured row: "@ + e,
        },
        (forall|i: int|
            0 <= i < values@.len() ==> !((#[trigger] values.deep_view()[i]) is Real)) ==> (r matches Ok(
            t,
        ) && keeps_row(
            t@,
            kept_row(names.deep_view(), values.deep_view(), names@.len() as int),
        )),
{
    let row = staging_get_row(names, values);
    let ghost cells = row.deep_view();
    let written = write_object(&row.entries);
    proof {
        let nm = names.deep_view();
        let vm = values.deep_view();
        let n = names@.len() as int;
        lemma_kept_row(nm, vm, n);
        assert(row.entries.deep_view() == cells);
        if forall|i: int| 0 <= i < values@.len() ==> !((#[trigger] vm[i]) is Real) {
            lemma_json_row_reads_back(nm, vm, n);
            assert(cells.len() == row.entries@.len());
            let members = object_of(written->Ok_0@)->Ok_0;
            lemma_row_of(members);
            lemma_row_of(cells);
            assert forall|k: Seq<char>| #[trigger] row_of(members).dom().contains(k) == row_of(
                cells,
            ).dom().contains(k) by {
                assert(textmap::value_of(members, k) == textmap::value_of(cells, k));
            }
            assert(row_of(members) =~= row_of(cells));
        }
    }
    match written {
        Ok(t) => Ok(t),
        Err(e) => Err(glued("Serialize captured row: ", e.as_str())),
    }
}

/// Rows after a replay: the row of a key is taken out or put in, or its cells
/// but for the key are set where it is there.
pub open spec fn replayed(
    rows: Rows,
    replay: Replay,
    key: (Seq<char>, Seq<char>),
    pk_column: Seq<char>,
) -> Rows {
    match replay {
        Replay::Remove => rows.remove(key),
        Replay::Put { row } => rows.insert(key, denoted(row)),
        Replay::Change { row } => if rows.dom().contains(key) {
            rows.insert(
                key,
                rows[key].union_prefer_right(denoted(row).remove(pk_column)),
            )
        } else {
            rows
        },
    }
}

/// Whether an entry records an edit that took the rows from `before` to `after`:
/// the texts denote the row before and after, and an edited row keeps its
/// columns and its key.
pub open spec fn records(e: EntryModel, pk_column: Seq<char>, before: Rows, after: Rows) -> bool {
    let key = (e.table_name, e.pk_value);
    &&& before.dom().contains(key) == e.old_row is Some
    &&& after.dom().contains(key) == e.new_row is Some
    &&& e.old_row is Some || e.new_row is Some
    &&& before.remove(key) == after.remove(key)
    &&& e.old_row is Some ==> before[key] == denoted(e.old_row->0)
    &&& e.new_row is Some ==> after[key] == denoted(e.new_row->0)
    &&& e.old_row is Some && e.new_row is Some ==> {
        let o = denoted(e.old_row->0);
        let n = denoted(e.new_row->0);
        &&& o.dom() == n.dom()
        &&& o.dom().contains(pk_column)
        &&& o[pk_column] == n[pk_column]
    }
}

/// Rows after an edit is undone.
pub open spec fn after_undo(schema: SchemaModel, rows: Rows, e: EntryModel) -> Rows {
    match undoing(e.old_row, e.new_row) {
        Some(r) => replayed(
            rows,
            r,
            (e.table_name, e.pk_value),
            replay_key(schema, e.table_name),
        ),
        None => rows,
    }
}

/// Rows after an edit is done again.
pub open spec fn after_redo(schema: SchemaModel, rows: Rows, e: EntryModel) -> Rows {
    match redoing(e.old_row, e.new_row) {
        Some(r) => replayed(
            rows,
            r,
            (e.table_name, e.pk_value),
            replay_key(schema, e.table_name),
        ),
        None => rows,
    }
}

/// Undoing a recorded edit brings back the rows before it, and doing it again
/// the rows after it.
pub proof fn law_undo_reverts_edit(schema: SchemaModel, e: EntryModel, before: Rows, after: Rows)
    requires
        records(e, replay_key(schema, e.table_name), before, after),
    ensures
        after_undo(schema, after, e) == before,
        after_redo(schema, before, e) == after,
{
    let key = (e.table_name, e.pk_value);
    let pk = replay_key(schema, e.table_name);
    let b = after_undo(schema, after, e);
    let a = after_redo(schema, before, e);
    assert forall|k: (Seq<char>, Seq<char>)|
        #![trigger before.dom().contains(k)]
        #![trigger after.dom().contains(k)]
        k != key implies before.dom().contains(k) == after.dom().contains(k) && (before.dom().contains(k) ==> before[k] == after[k]) by {
        assert(before.remove(key).dom().contains(k) == before.dom().contains(k));
        assert(after.remove(key).dom().contains(k) == after.dom().contains(k));
        if before.dom().contains(k) {
            assert(before.remove(key)[k] == before[k]);
            assert(after.remove(key)[k] == after[k]);
        }
    }
    match (e.old_row, e.new_row) {
        (Some(old_row), Some(new_row)) => {
            let o = denoted(old_row);
            let n = denoted(new_row);
            assert(n.union_prefer_right(o.remove(pk)) =~= o);
            assert(o.union_prefer_right(n.remove(pk)) =~= n);
            assert(b == after.insert(key, o));
            assert(a == before.insert(key, n));
            assert(b =~= before);
            assert(a =~= after);
        },
        (Some(old_row), None) => {
            assert(b == after.insert(key, denoted(old_row)));
            assert(b =~= before);
            assert(a =~= after);
        },
        (None, Some(new_row)) => {
            assert(a == before.insert(key, denoted(new_row)));
            assert(b =~= before);
            assert(a =~= after);
        },
        (None, None) => {},
    }
}

/// Whether edits in a row took the rows from the first state to the last.
pub open spec fn records_all(
    schema: SchemaModel,
    edits: Seq<EntryModel>,
    states: Seq<Rows>,
) -> bool {
    &&& states.len() == edits.len() + 1
    &&& forall|i: int|
        0 <= i < edits.len() ==> records(
            #[trigger] edits[i],
            replay_key(schema, edits[i].table_name),
            states[i],
            states[i + 1],
        )
}

/// Rows after edits are undone, one after another.
pub open spec fn after_undos(schema: SchemaModel, rows: Rows, edits: Seq<EntryModel>) -> Rows
    decreases edits.len(),
{
    if edits.len() == 0 {
        rows
    } else {
        after_undo(schema, after_undos(schema, rows, edits.drop_last()), edits.last())
    }
}

/// Rows after edits are done again, one after another.
pub open spec fn after_redos(schema: SchemaModel, rows: Rows, edits: Seq<EntryModel>) -> Rows
    decreases edits.len(),
{
    if edits.len() == 0 {
        rows
    } else {
        after_redo(schema, after_redos(schema, rows, edits.drop_last()), edits.last())
    }
}

proof fn lemma_undos_to(schema: SchemaModel, edits: Seq<EntryModel>, states: Seq<Rows>, n: int)
    requires
        records_all(schema, edits, states),
        0 <= n <= edits.len(),
    ensures
        after_undos(schema, states[edits.len() as int], edits.reverse().take(n))
            == states[edits.len() - n],
    decreases n,
{
    if n > 0 {
        lemma_undos_to(schema, edits, states, n - 1);
        let back = edits.reverse();
        assert(back.take(n).drop_last() =~= back.take(n - 1));
        assert(back.take(n).last() == edits[edits.len() - n]);
        law_undo_reverts_edit(
            schema,
            edits[edits.len() - n],
            states[edits.len() - n],
            states[edits.len() - n + 1],
        );
    } else {
        assert(edits.reverse().take(0) =~= Seq::<EntryModel>::empty());
    }
}

/// Undoing a group of recorded edits, the last one first, brings back the rows
/// before the group.
pub proof fn law_undo_restores_rows(
    schema: SchemaModel,
    edits: Seq<EntryModel>,
    states: Seq<Rows>,
)
    requires
        records_all(schema, edits, states),
    ensures
        after_undos(schema, states[edits.len() as int], edits.reverse()) == states[0],
{
    lemma_undos_to(schema, edits, states, edits.len() as int);
    assert(edits.reverse().take(edits.len() as int) =~= edits.reverse());
}

/// Doing a group of recorded edits again, in order, brings back the rows after
/// the group.
pub proof fn law_redo_restores_rows(
    schema: SchemaModel,
    edits: Seq<EntryModel>,
    states: Seq<Rows>,
)
    requires
        records_all(schema, edits, states),
    ensures
        after_redos(schema, states[0], edits) == states[edits.len() as int],
    decreases edits.len(),
{
    if edits.len() > 0 {
        let e = edits.drop_last();
        let s = states.drop_last();
        assert forall|i: int| 0 <= i < e.len() implies records(
            #[trigger] e[i],
            replay_key(schema, e[i].table_name),
            s[i],
            s[i + 1],
        ) by {
            assert(e[i] == edits[i]);
        }
        law_redo_restores_rows(schema, e, s);
        let n = edits.len() - 1;
        law_undo_reverts_edit(schema, edits[n], states[n], states[n + 1]);
    }
}

/// What undoes an edit is called by what it does to the row.
pub open spec fn replay_name(old_row: Option<Seq<char>>, new_row: Option<Seq<char>>) -> Seq<char> {
    if old_row is None {
        "delete"@
    } else if new_row is None {
        "insert"@
    } else {
        "update"@
    }
}

/// Whether the texts of an entry are those of rows, and there is one.
pub open spec fn holds_rows(e: EntryModel) -> bool {
    &&& e.old_row is Some || e.new_row is Some
    &&& e.old_row matches Some(o) ==> object_of(o) is Ok
    &&& e.new_row matches Some(n) ==> object_of(n) is Ok
}

/// A replay of edits whose rows the journal holds goes through, and names each of
/// them in its order: an undo deletes a row that the edit put in, puts in one that
/// it took out, and updates any other, and a redo does the opposite.
pub proof fn law_replay_names_edits(schema: SchemaModel, edits: Seq<EntryModel>, back: bool)
    requires
        forall|i: int| 0 <= i < edits.len() ==> holds_rows(#[trigger] edits[i]),
    ensures
        ({
            let script = script_of(schema, edits, back);
            &&& script.failure is None
            &&& script.replayed == edits.map_values(
                |e: EntryModel|
                    ReplayedModel {
                        table_name: e.table_name,
                        pk_value: e.pk_value,
                        action: if back {
                            replay_name(e.old_row, e.new_row)
                        } else {
                            replay_name(e.new_row, e.old_row)
                        },
                    },
            )
        }),
    decreases edits.len(),
{
    let named = |e: EntryModel|
        ReplayedModel {
            table_name: e.table_name,
            pk_value: e.pk_value,
            action: if back {
                replay_name(e.old_row, e.new_row)
            } else {
                replay_name(e.new_row, e.old_row)
            },
        };
    if edits.len() > 0 {
        let d = edits.drop_last();
        assert forall|i: int| 0 <= i < d.len() implies holds_rows(#[trigger] d[i]) by {
            assert(d[i] == edits[i]);
        }
        law_replay_names_edits(schema, d, back);
        assert(holds_rows(edits[edits.len() - 1]));
        assert(edits.map_values(named) =~= d.map_values(named).push(named(edits.last())));
        assert(edit_step(schema, edits.last(), back) is Ok);
    } else {
        assert(edits.map_values(named) =~= Seq::<ReplayedModel>::empty());
    }
}

proof fn lemma_below(journal: Seq<EntryModel>, limit: int)
    ensures
        match boundary_below(journal, limit) {
            Some(b) => b < limit && (exists|i: int|
                0 <= i < journal.len() && is_boundary(#[trigger] journal[i]) && journal[i].id == b)
                && (forall|i: int|
                0 <= i < journal.len() && is_boundary(#[trigger] journal[i]) && journal[i].id
                    < limit ==> journal[i].id <= b),
            None => forall|i: int|
                0 <= i < journal.len() && is_boundary(#[trigger] journal[i]) ==> journal[i].id
                    >= limit,
        },
    decreases journal.len(),
{
    if journal.len() > 0 {
        lemma_below(journal.drop_last(), limit);
        let d = journal.drop_last();
        assert forall|i: int| 0 <= i < d.len() implies #[trigger] d[i] == journal[i] by {}
        match boundary_below(journal, limit) {
            Some(b) => {
                if boundary_below(d, limit) == Some(b) {
                    let i = choose|i: int|
                        0 <= i < d.len() && is_boundary(#[trigger] d[i]) && d[i].id == b;
                    assert(is_boundary(journal[i]) && journal[i].id == b);
                } else {
                    assert(is_boundary(journal[journal.len() - 1]));
                }
                assert forall|i: int|
                    0 <= i < journal.len() && is_boundary(#[trigger] journal[i]) && journal[i].id
                        < limit implies journal[i].id <= b by {
                    if i < d.len() {
                        assert(d[i] == journal[i]);
                        assert(is_boundary(d[i]));
                    }
                }
            },
            None => {
                assert forall|i: int|
                    0 <= i < journal.len() && is_boundary(
                        #[trigger] journal[i],
                    ) implies journal[i].id >= limit by {
                    if i < d.len() {
                        assert(is_boundary(d[i]));
                    }
                }
            },
        }
    }
}

proof fn lemma_above(journal: Seq<EntryModel>, limit: int)
    ensures
        match boundary_above(journal, limit) {
            Some(b) => b > limit && (exists|i: int|
                0 <= i < journal.len() && is_boundary(#[trigger] journal[i]) && journal[i].id == b)
                && (forall|i: int|
                0 <= i < journal.len() && is_boundary(#[trigger] journal[i]) && journal[i].id
                    > limit ==> journal[i].id >= b),
            None => forall|i: int|
                0 <= i < journal.len() && is_boundary(#[trigger] journal[i]) ==> journal[i].id
                    <= limit,
        },
    decreases journal.len(),
{
    if journal.len() > 0 {
        lemma_above(journal.drop_last(), limit);
        let d = journal.drop_last();
        assert forall|i: int| 0 <= i < d.len() implies #[trigger] d[i] == journal[i] by {}
        match boundary_above(journal, limit) {
            Some(b) => {
                if boundary_above(d, limit) == Some(b) {
                    let i = choose|i: int|
                        0 <= i < d.len() && is_boundary(#[trigger] d[i]) && d[i].id == b;
                    assert(is_boundary(journal[i]) && journal[i].id == b);
                } else {
                    assert(is_boundary(journal[journal.len() - 1]));
                }
                assert forall|i: int|
                    0 <= i < journal.len() && is_boundary(#[trigger] journal[i]) && journal[i].id
                        > limit implies journal[i].id >= b by {
                    if i < d.len() {
                        assert(d[i] == journal[i]);
                        assert(is_boundary(d[i]));
                    }
                }
            },
            None => {
                assert forall|i: int|
                    0 <= i < journal.len() && is_boundary(
                        #[trigger] journal[i],
                    ) implies journal[i].id <= limit by {
                    if i < d.len() {
                        assert(is_boundary(d[i]));
                    }
                }
            },
        }
    }
}

/// After an undo a redo does the same edits again, in the opposite order, and ends
/// where the undo began.
pub proof fn law_redo_follows_undo(journal: Seq<EntryModel>, pointer: int)
    requires
        exists|i: int|
            0 <= i < journal.len() && is_boundary(#[trigger] journal[i]) && journal[i].id
                == pointer,
        pointer > 0,
    ensures
        ({
            let place = place_below(journal, pointer);
            &&& boundary_above(journal, place) == Some(pointer)
            &&& redone(journal, place) == undone(journal, pointer).reverse()
        }),
{
    let place = place_below(journal, pointer);
    lemma_below(journal, pointer);
    lemma_above(journal, place);
    let i = choose|i: int|
        0 <= i < journal.len() && is_boundary(#[trigger] journal[i]) && journal[i].id == pointer;
    assert(is_boundary(journal[i]) && journal[i].id > place);
    let found = boundary_above(journal, place)->0;
    let k = choose|k: int|
        0 <= k < journal.len() && is_boundary(#[trigger] journal[k]) && journal[k].id == found;
    assert(is_boundary(journal[k]));
    let group = edits_between(journal, place, pointer);
    assert(group.reverse().reverse() =~= group);
}

/// Whether an entry is kept when undone groups are forgotten.
pub open spec fn is_kept(e: EntryModel, journal: Seq<EntryModel>, pointer: Option<i64>) -> bool {
    match undone_end(journal, pointer) {
        Some(last) => e.id <= pointer->0 || e.id > last,
        None => true,
    }
}

/// The journal after a snapshot: undone groups are forgotten, and a boundary is
/// set.
pub open spec fn after_snapshot(journal: Seq<EntryModel>, pointer: Option<i64>, id: int) -> Seq<
    EntryModel,
> {
    let kept = journal.filter(|e: EntryModel| is_kept(e, journal, pointer));
    kept.push(
        EntryModel {
            id,
            table_name: "__boundary__"@,
            pk_value: Seq::empty(),
            old_row: None,
            new_row: None,
        },
    )
}

proof fn lemma_last(journal: Seq<EntryModel>, limit: int)
    ensures
        match last_boundary(journal, limit) {
            Some(b) => b > limit && (exists|i: int|
                0 <= i < journal.len() && is_boundary(#[trigger] journal[i]) && journal[i].id == b)
                && (forall|i: int|
                0 <= i < journal.len() && is_boundary(#[trigger] journal[i]) ==> journal[i].id
                    <= b),
            None => forall|i: int|
                0 <= i < journal.len() && is_boundary(#[trigger] journal[i]) ==> journal[i].id
                    <= limit,
        },
    decreases journal.len(),
{
    if journal.len() > 0 {
        let d = journal.drop_last();
        lemma_last(d, limit);
        assert forall|i: int| 0 <= i < d.len() implies #[trigger] d[i] == journal[i] by {}
        match last_boundary(journal, limit) {
            Some(b) => {
                if last_boundary(d, limit) == Some(b) {
                    let i = choose|i: int|
                        0 <= i < d.len() && is_boundary(#[trigger] d[i]) && d[i].id == b;
                    assert(is_boundary(journal[i]) && journal[i].id == b);
                } else {
                    assert(is_boundary(journal[journal.len() - 1]));
                }
                assert forall|i: int|
                    0 <= i < journal.len() && is_boundary(
                        #[trigger] journal[i],
                    ) implies journal[i].id <= b by {
                    if i < d.len() {
                        assert(d[i] == journal[i]);
                        assert(is_boundary(d[i]));
                    }
                }
            },
            None => {
                assert forall|i: int|
                    0 <= i < journal.len() && is_boundary(
                        #[trigger] journal[i],
                    ) implies journal[i].id <= limit by {
                    if i < d.len() {
                        assert(is_boundary(d[i]));
                    }
                }
            },
        }
    }
}

/// A snapshot forgets what was undone and nothing else: what stands up to the
/// place up to which edits are done stays, and so do the edits above the greatest
/// boundary, which were made since.
pub proof fn law_snapshot_keeps_edits(
    journal: Seq<EntryModel>,
    pointer: Option<i64>,
    id: int,
    i: int,
)
    requires
        0 <= i < journal.len(),
        pointer matches Some(p) ==> journal[i].id <= p || (forall|k: int|
            0 <= k < journal.len() && is_boundary(#[trigger] journal[k]) ==> journal[k].id
                < journal[i].id),
    ensures
        after_snapshot(journal, pointer, id).contains(journal[i]),
{
    let keep = |e: EntryModel| is_kept(e, journal, pointer);
    let after = after_snapshot(journal, pointer, id);
    let kept = journal.filter(keep);
    if pointer is Some {
        lemma_last(journal, pointer->0 as int);
    }
    assert(keep(journal[i]));
    journal.lemma_filter_contains(keep, i);
    let k = choose|k: int| 0 <= k < kept.len() && kept[k] == journal[i];
    assert(after[k] == journal[i]);
}

/// What a snapshot closes is the group that the next undo reverts: the edits above
/// the greatest boundary, and no undone one.
pub proof fn law_snapshot_forgets_undone(
    journal: Seq<EntryModel>,
    pointer: i64,
    id: int,
    e: EntryModel,
)
    requires
        after_snapshot(journal, Some(pointer), id).contains(e),
        e.id != id,
        e.id > pointer,
    ensures
        journal.contains(e),
        forall|k: int|
            0 <= k < journal.len() && is_boundary(#[trigger] journal[k]) && journal[k].id > pointer
                ==> journal[k].id < e.id,
{
    let keep = |x: EntryModel| is_kept(x, journal, Some(pointer));
    let after = after_snapshot(journal, Some(pointer), id);
    let kept = journal.filter(keep);
    lemma_last(journal, pointer as int);
    let k = choose|k: int| 0 <= k < after.len() && after[k] == e;
    assert(k < kept.len());
    assert(kept[k] == e);
    journal.lemma_filter_pred(keep, k);
    journal.lemma_filter_contains_rev(keep, e);
}

/// After a snapshot nothing can be done again: the new boundary, which is above
/// all that is left, is the last.
pub proof fn law_snapshot_ends_redo(journal: Seq<EntryModel>, pointer: Option<i64>, id: int)
    requires
        forall|i: int|
            0 <= i < after_snapshot(journal, pointer, id).len() - 1 ==> (
            #[trigger] after_snapshot(journal, pointer, id)[i]).id < id,
    ensures
        boundary_above(after_snapshot(journal, pointer, id), id) is None,
        redone(after_snapshot(journal, pointer, id), id).len() == 0,
{
    let after = after_snapshot(journal, pointer, id);
    lemma_above(after, id);
    if boundary_above(after, id) is Some {
        let b = boundary_above(after, id)->0;
        let i = choose|i: int|
            0 <= i < after.len() && is_boundary(#[trigger] after[i]) && after[i].id == b;
        assert(after[i].id <= id);
    }
}

} // verus!
