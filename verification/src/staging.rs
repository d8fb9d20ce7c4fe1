//! Edits in a staging database: which rows they touch, and what they leave
//! behind.

use vstd::prelude::*;
use vstd::string::*;
use crate::discovery::glued;
use crate::ddl;
use crate::ddl::has_data_column;
use crate::schema::{ColumnDef, ColumnModel, DiscoveredSchema, PkStrategy, SchemaModel, TableModel,
    TableSchema};
use crate::sql;
use crate::sql::{list_marks, list_names, text_value, Statement, StatementModel};
use crate::text;
use crate::text::{copy_opt, decimal_text, int_text, join, owned, strip_prefix, text_eq};
use crate::textmap;
use crate::textmap::TextMap;
use crate::types::{SqlModel, SqlValue};

verus! {

// ---------------------------------------------------------------------------
// Values
// ---------------------------------------------------------------------------

/// A value as the database holds it.
#[derive(Debug)]
pub enum Stored {
    Null,
    Integer(i64),
    /// A finite real number, as JSON writes it.
    Real(String),
    Text(String),
    /// Bytes, of which only the number is kept.
    Blob(usize),
}

/// What a value in the database is.
pub enum StoredModel {
    Null,
    Integer(int),
    Real(Seq<char>),
    Text(Seq<char>),
    Blob(nat),
}

impl DeepView for Stored {
    type V = StoredModel;

    open spec fn deep_view(&self) -> StoredModel {
        match self {
            Stored::Null => StoredModel::Null,
            Stored::Integer(n) => StoredModel::Integer(*n as int),
            Stored::Real(s) => StoredModel::Real(s@),
            Stored::Text(s) => StoredModel::Text(s@),
            Stored::Blob(n) => StoredModel::Blob(*n as nat),
        }
    }
}

/// A JSON value of a cell.
#[derive(Debug)]
pub enum Json {
    Null,
    Bool(bool),
    Integer(i64),
    /// A number that is no 64-bit integer, as JSON writes it.
    Real(String),
    Text(String),
    /// A list or an object, as JSON writes it.
    Nested(String),
}

/// What a JSON value of a cell is.
pub enum JsonModel {
    Null,
    Bool(bool),
    Integer(int),
    Real(Seq<char>),
    Text(Seq<char>),
    Nested(Seq<char>),
}

impl DeepView for Json {
    type V = JsonModel;

    open spec fn deep_view(&self) -> JsonModel {
        match self {
            Json::Null => JsonModel::Null,
            Json::Bool(b) => JsonModel::Bool(*b),
            Json::Integer(n) => JsonModel::Integer(*n as int),
            Json::Real(s) => JsonModel::Real(s@),
            Json::Text(s) => JsonModel::Text(s@),
            Json::Nested(s) => JsonModel::Nested(s@),
        }
    }
}

/// A value of the database in JSON; of bytes only their number is told.
pub open spec fn stored_json(v: StoredModel) -> JsonModel {
    match v {
        StoredModel::Null => JsonModel::Null,
        StoredModel::Integer(n) => JsonModel::Integer(n),
        StoredModel::Real(s) => JsonModel::Real(s),
        StoredModel::Text(s) => JsonModel::Text(s),
        StoredModel::Blob(n) => JsonModel::Text("[blob:"@ + text::decimal(n) + " bytes]"@),
    }
}

/// A value of the database in JSON.
pub fn sqlite_value_to_json(val: &Stored) -> (r: Json)
    ensures
        r.deep_view() == stored_json(val.deep_view()),
{
    match val {
        Stored::Null => Json::Null,
        Stored::Integer(n) => Json::Integer(*n),
        Stored::Real(s) => Json::Real(s.clone()),
        Stored::Text(s) => Json::Text(s.clone()),
        Stored::Blob(n) => {
            let mut t = owned("[blob:");
            t.append(decimal_text(*n as u64).as_str());
            t.append(" bytes]");
            Json::Text(t)
        },
    }
}

/// A JSON value as it is stored.
pub open spec fn json_stored(v: JsonModel) -> SqlModel {
    match v {
        JsonModel::Null => SqlModel::Null,
        JsonModel::Bool(b) => SqlModel::Integer(if b {
            1
        } else {
            0
        }),
        JsonModel::Integer(n) => SqlModel::Integer(n),
        JsonModel::Real(s) => SqlModel::Real(s),
        JsonModel::Text(s) => SqlModel::Text(s),
        JsonModel::Nested(s) => SqlModel::Text(s),
    }
}

/// A JSON value as it is stored.
pub fn json_value_to_sql(val: &Json) -> (r: SqlValue)
    ensures
        r.deep_view() == json_stored(val.deep_view()),
{
    match val {
        Json::Null => SqlValue::Null,
        Json::Bool(b) => SqlValue::Integer(if *b {
            1
        } else {
            0
        }),
        Json::Integer(n) => SqlValue::Integer(*n),
        Json::Real(s) => SqlValue::Real(s.clone()),
        Json::Text(s) => SqlValue::Text(s.clone()),
        Json::Nested(s) => SqlValue::Text(s.clone()),
    }
}

/// A JSON value written out, texts without quotes.
pub open spec fn plain_text(v: JsonModel) -> Seq<char> {
    match v {
        JsonModel::Null => "null"@,
        JsonModel::Bool(b) => if b {
            "true"@
        } else {
            "false"@
        },
        JsonModel::Integer(n) => text::decimal_int(n),
        JsonModel::Real(s) => s,
        JsonModel::Text(s) => s,
        JsonModel::Nested(s) => s,
    }
}

fn write_plain(v: &Json) -> (r: String)
    ensures
        r@ == plain_text(v.deep_view()),
{
    match v {
        Json::Null => owned("null"),
        Json::Bool(b) => if *b {
            owned("true")
        } else {
            owned("false")
        },
        Json::Integer(n) => int_text(*n),
        Json::Real(s) => s.clone(),
        Json::Text(s) => s.clone(),
        Json::Nested(s) => s.clone(),
    }
}

// ---------------------------------------------------------------------------
// Tables
// ---------------------------------------------------------------------------

/// Whether the schema has a table.
pub open spec fn knows_table(schema: SchemaModel, table: Seq<char>) -> bool {
    textmap::has_key(schema.tables, table)
}

/// The query for a table of a region, and its parameters.
pub open spec fn region_lookup(cond: Seq<char>, params: Seq<SqlModel>) -> StatementModel {
    StatementModel {
        what: "Find table"@,
        sql: "SELECT table_name FROM _table_meta WHERE region_id = ?1"@ + cond + " LIMIT 1"@,
        params,
    }
}

/// The kind of source that the name of a table implies, and the region in it.
pub open spec fn implied_region(table: Seq<char>) -> (Option<Seq<char>>, Seq<char>) {
    match text::stripped(table, "lsx__"@) {
        Some(r) => (Some("lsx"@), r),
        None => match text::stripped(table, "stats__"@) {
            Some(r) => (Some("stats"@), r),
            None => (None, table),
        },
    }
}

/// The queries that look for a table by region, the first that finds one counts:
/// of the kind of source that the name implies and then of any, and each time a
/// table of entries before a root.
pub open spec fn region_lookups(table: Seq<char>) -> Seq<StatementModel> {
    let (source, region) = implied_region(table);
    let r = SqlModel::Text(region);
    (match source {
        Some(s) => seq![
            region_lookup(
                " AND source_type = ?2 AND node_id != 'root'"@,
                seq![r, SqlModel::Text(s)],
            ),
            region_lookup(" AND source_type = ?2"@, seq![r, SqlModel::Text(s)]),
        ],
        None => Seq::empty(),
    }) + seq![region_lookup(" AND node_id != 'root'"@, seq![r]), region_lookup(""@, seq![r])]
}

fn make_lookup(cond: &str, params: Vec<SqlValue>) -> (r: Statement)
    ensures
        r.deep_view() == region_lookup(cond@, params.deep_view()),
{
    let mut s = owned("SELECT table_name FROM _table_meta WHERE region_id = ?1");
    s.append(cond);
    s.append(" LIMIT 1");
    Statement { what: owned("Find table"), sql: s, params }
}

/// The queries that look for a table by region.
pub fn resolve_table_by_region(table: &str) -> (r: Vec<Statement>)
    ensures
        r.deep_view() == region_lookups(table@),
{
    let (source, region): (Option<&'static str>, String) = match strip_prefix(table, "lsx__") {
        Some(r) => (Some("lsx"), r),
        None => match strip_prefix(table, "stats__") {
            Some(r) => (Some("stats"), r),
            None => (None, owned(table)),
        },
    };
    let mut r: Vec<Statement> = Vec::new();
    match source {
        Some(s) => {
            let first: Vec<SqlValue> = vec![text_value(region.as_str()), text_value(s)];
            assert(first.deep_view() =~= seq![SqlModel::Text(region@), SqlModel::Text(s@)]);
            r.push(make_lookup(" AND source_type = ?2 AND node_id != 'root'", first));
            let second: Vec<SqlValue> = vec![text_value(region.as_str()), text_value(s)];
            assert(second.deep_view() =~= seq![SqlModel::Text(region@), SqlModel::Text(s@)]);
            r.push(make_lookup(" AND source_type = ?2", second));
        },
        None => {},
    }
    let third: Vec<SqlValue> = vec![text_value(region.as_str())];
    assert(third.deep_view() =~= seq![SqlModel::Text(region@)]);
    r.push(make_lookup(" AND node_id != 'root'", third));
    let last: Vec<SqlValue> = vec![text_value(region.as_str())];
    assert(last.deep_view() =~= seq![SqlModel::Text(region@)]);
    r.push(make_lookup("", last));
    assert(r.deep_view() =~= region_lookups(table@));
    r
}

/// The table that a name means: the table of that name, or else the one that was
/// found by region.
pub open spec fn resolved_table(
    schema: SchemaModel,
    table: Seq<char>,
    by_region: Option<Seq<char>>,
) -> Result<Seq<char>, Seq<char>> {
    if knows_table(schema, table) {
        Ok(table)
    } else {
        match by_region {
            Some(t) if knows_table(schema, t) => Ok(t),
            _ => Err("Table '"@ + table + "' not found in staging schema"@),
        }
    }
}

/// The table that a name means, given what was found by region.
pub fn resolve_staging_table(
    schema: &DiscoveredSchema,
    table: &str,
    by_region: &Option<String>,
) -> (r: Result<String, String>)
    ensures
        match r {
            Ok(t) => resolved_table(schema.deep_view(), table@, by_region.deep_view()) == Ok::<
                Seq<char>,
                Seq<char>,
            >(t@),
            Err(e) => resolved_table(schema.deep_view(), table@, by_region.deep_view()) == Err::<
                Seq<char>,
                Seq<char>,
            >(e@),
        },
{
    if schema.tables.contains_key(table) {
        return Ok(owned(table));
    }
    match by_region {
        Some(t) => {
            if schema.tables.contains_key(t.as_str()) {
                return Ok(t.clone());
            }
        },
        None => {},
    }
    let mut e = owned("Table '");
    e.append(table);
    e.append("' not found in staging schema");
    Err(e)
}

/// The key column of a table.
pub fn get_pk_column(schema: &DiscoveredSchema, table: &str) -> (r: Result<&'static str, String>)
    ensures
        match textmap::value_of(schema.deep_view().tables, table@) {
            Some(t) => r matches Ok(c) && c@ == t.pk_strategy.key_column(),
            None => r matches Err(e) && e@ == "Table '"@ + table@ + "' not in schema"@,
        },
{
    match schema.tables.get(table) {
        Some(t) => Ok(t.pk_strategy.pk_column()),
        None => {
            let mut e = owned("Table '");
            e.append(table);
            e.append("' not in schema");
            Err(e)
        },
    }
}

// ---------------------------------------------------------------------------
// Writing a row
// ---------------------------------------------------------------------------

/// The columns of an edit that the table has, as data columns or as its key.
pub open spec fn known_columns(
    columns: Seq<(Seq<char>, Seq<char>)>,
    t: TableModel,
) -> Seq<(Seq<char>, Seq<char>)>
    decreases columns.len(),
{
    if columns.len() == 0 {
        Seq::empty()
    } else {
        let before = known_columns(columns.drop_last(), t);
        if ddl::has_column(t, columns.last().0) {
            before.push(columns.last())
        } else {
            before
        }
    }
}

#[verifier::loop_isolation(false)]
fn keep_known(columns: &TextMap<String>, t: &TableSchema) -> (r: TextMap<String>)
    ensures
        r.deep_view() == known_columns(columns.deep_view(), t.deep_view()),
{
    let ghost all = columns.deep_view();
    let mut kept: Vec<(String, String)> = Vec::new();
    assert(kept.deep_view() =~= known_columns(all.take(0), t.deep_view()));
    let mut i: usize = 0;
    while i < columns.entries.len()
        invariant
            i <= columns.entries@.len(),
            all == columns.deep_view(),
            kept.deep_view() == known_columns(all.take(i as int), t.deep_view()),
        decreases columns.entries@.len() - i,
    {
        assert(all.take(i + 1).drop_last() =~= all.take(i as int));
        let c = &columns.entries[i];
        assert(all[i as int] == (c.0@, c.1@));
        let ghost before = kept.deep_view();
        if has_data_column(&t.columns, c.0.as_str()) || text_eq(
            c.0.as_str(),
            t.pk_strategy.pk_column(),
        ) {
            let one = (c.0.clone(), c.1.clone());
            kept.push(one);
            assert(kept.deep_view() =~= before.push((one.0@, one.1@)));
        }
        i += 1;
    }
    assert(all.take(i as int) =~= all);
    TextMap { entries: kept }
}

/// Whether a row needs a number as its key: it is new, and none is given.
pub open spec fn needs_row_id(
    schema: SchemaModel,
    table: Seq<char>,
    columns: Seq<(Seq<char>, Seq<char>)>,
    is_new: bool,
) -> bool {
    match textmap::value_of(schema.tables, table) {
        Some(t) => t.pk_strategy.key_column() == "_row_id"@ && is_new && !textmap::has_key(
            known_columns(columns, t),
            "_row_id"@,
        ),
        None => false,
    }
}

/// Whether a row needs a number as its key.
pub fn wants_row_id(
    schema: &DiscoveredSchema,
    table: &str,
    columns: &TextMap<String>,
    is_new: bool,
) -> (r: bool)
    ensures
        r == needs_row_id(schema.deep_view(), table@, columns.deep_view(), is_new),
{
    match schema.tables.get(table) {
        Some(t) => text_eq(t.pk_strategy.pk_column(), "_row_id") && is_new && !keep_known(
            columns,
            t,
        ).contains_key("_row_id"),
        None => false,
    }
}

/// The query for the next number that can be a key.
pub fn next_row_id_query(table: &str) -> (r: String)
    ensures
        r@ == "SELECT COALESCE(MAX(\"_row_id\"), 0) + 1 FROM "@ + sql::quoted(table@),
{
    glued("SELECT COALESCE(MAX(\"_row_id\"), 0) + 1 FROM ", sql::quote(table).as_str())
}

/// A row to be written.
pub struct UpsertPlan {
    pub table: String,
    pub pk_column: &'static str,
    pub pk_value: String,
    pub columns: TextMap<String>,
}

/// What a row to be written says.
pub struct UpsertModel {
    pub table: Seq<char>,
    pub pk_column: Seq<char>,
    pub pk_value: Seq<char>,
    pub columns: Seq<(Seq<char>, Seq<char>)>,
}

impl DeepView for UpsertPlan {
    type V = UpsertModel;

    open spec fn deep_view(&self) -> UpsertModel {
        UpsertModel {
            table: self.table@,
            pk_column: self.pk_column@,
            pk_value: self.pk_value@,
            columns: self.columns.deep_view(),
        }
    }
}

/// The row that an edit writes: the columns that the table has, and a number as
/// key where one is needed. It fails where the table is not there or no key is
/// given.
pub open spec fn planned(
    schema: SchemaModel,
    table: Seq<char>,
    columns: Seq<(Seq<char>, Seq<char>)>,
    is_new: bool,
    next_id: i64,
) -> Result<UpsertModel, Seq<char>> {
    match textmap::value_of(schema.tables, table) {
        None => Err("Table '"@ + table + "' not in schema"@),
        Some(t) => {
            let pk = t.pk_strategy.key_column();
            let known = known_columns(columns, t);
            let all = if needs_row_id(schema, table, columns, is_new) {
                textmap::with_value(known, "_row_id"@, text::decimal_int(next_id as int))
            } else {
                known
            };
            match textmap::value_of(all, pk) {
                Some(v) => Ok(
                    UpsertModel { table, pk_column: pk, pk_value: v, columns: all },
                ),
                None => Err(
                    "Missing PK column '"@ + pk + "' in upsert data for table '"@ + table + "'"@,
                ),
            }
        },
    }
}

/// The row that an edit writes, given the next number that can be a key.
pub fn plan_upsert(
    schema: &DiscoveredSchema,
    table: &str,
    columns: &TextMap<String>,
    is_new: bool,
    next_id: i64,
) -> (r: Result<UpsertPlan, String>)
    ensures
        match r {
            Ok(p) => planned(schema.deep_view(), table@, columns.deep_view(), is_new, next_id)
                == Ok::<UpsertModel, Seq<char>>(p.deep_view()),
            Err(e) => planned(schema.deep_view(), table@, columns.deep_view(), is_new, next_id)
                == Err::<UpsertModel, Seq<char>>(e@),
        },
{
    let t = match schema.tables.get(table) {
        Some(t) => t,
        None => {
            let mut e = owned("Table '");
            e.append(table);
            e.append("' not in schema");
            return Err(e);
        },
    };
    let pk_column = t.pk_strategy.pk_column();
    let mut known = keep_known(columns, t);
    if wants_row_id(schema, table, columns, is_new) {
        known.insert(owned("_row_id"), int_text(next_id));
    }
    let pk_value = match known.get(pk_column) {
        Some(v) => v.clone(),
        None => {
            let mut e = owned("Missing PK column '");
            e.append(pk_column);
            e.append("' in upsert data for table '");
            e.append(table);
            e.append("'");
            return Err(e);
        },
    };
    Ok(UpsertPlan { table: owned(table), pk_column, pk_value, columns: known })
}

/// The columns of a row but for its key, each set to a parameter.
pub open spec fn assignments(columns: Seq<(Seq<char>, Seq<char>)>, pk: Seq<char>) -> Seq<Seq<char>>
    decreases columns.len(),
{
    if columns.len() == 0 {
        Seq::empty()
    } else {
        let before = assignments(columns.drop_last(), pk);
        if columns.last().0 == pk {
            before
        } else {
            before.push(sql::quoted(columns.last().0) + " = ?"@)
        }
    }
}

/// The values of a row but for its key.
pub open spec fn assigned_values(columns: Seq<(Seq<char>, Seq<char>)>, pk: Seq<char>) -> Seq<
    SqlModel,
>
    decreases columns.len(),
{
    if columns.len() == 0 {
        Seq::empty()
    } else {
        let before = assigned_values(columns.drop_last(), pk);
        if columns.last().0 == pk {
            before
        } else {
            before.push(SqlModel::Text(columns.last().1))
        }
    }
}

/// The mark that an edit of a row leaves: a row that is new stays new, any other
/// is modified.
pub open spec fn edit_mark(was_new: bool) -> Seq<char> {
    if was_new {
        "\"_is_new\" = 1"@
    } else {
        "\"_is_modified\" = 1"@
    }
}

/// The statement that changes a row that is there.
pub open spec fn update_model(p: UpsertModel, was_new: bool) -> StatementModel {
    let sets = assignments(p.columns, p.pk_column);
    if sets.len() == 0 {
        StatementModel {
            what: "Update tracking"@,
            sql: "UPDATE "@ + sql::quoted(p.table) + " SET "@ + edit_mark(was_new) + " WHERE "@
                + sql::quoted(p.pk_column) + " = ?1"@,
            params: seq![SqlModel::Text(p.pk_value)],
        }
    } else {
        StatementModel {
            what: "Update row"@,
            sql: "UPDATE "@ + sql::quoted(p.table) + " SET "@ + text::joined(sets, ", "@) + ", "@
                + edit_mark(was_new) + " WHERE "@ + sql::quoted(p.pk_column) + " = ?"@,
            params: assigned_values(p.columns, p.pk_column).push(SqlModel::Text(p.pk_value)),
        }
    }
}

/// The statement that adds a row: it is new where the edit says so, and modified
/// otherwise.
pub open spec fn insert_model(p: UpsertModel, is_new: bool) -> StatementModel {
    let names = textmap::keys_of(p.columns);
    StatementModel {
        what: "Insert row"@,
        sql: "INSERT INTO "@ + sql::quoted(p.table) + " ("@ + sql::name_list(
            names + seq!["_is_new"@, "_is_modified"@],
        ) + ") VALUES ("@ + text::joined(
            sql::marks(1, names.len()) + (if is_new {
                seq!["1"@, "0"@]
            } else {
                seq!["0"@, "1"@]
            }),
            ", "@,
        ) + ")"@,
        params: Seq::new(p.columns.len(), |i: int| SqlModel::Text(p.columns[i].1)),
    }
}

#[verifier::loop_isolation(false)]
fn list_assignments(p: &UpsertPlan) -> (r: (Vec<String>, Vec<SqlValue>))
    ensures
        r.0.deep_view() == assignments(p.deep_view().columns, p.pk_column@),
        r.1.deep_view() == assigned_values(p.deep_view().columns, p.pk_column@),
{
    let ghost all = p.columns.deep_view();
    let mut sets: Vec<String> = Vec::new();
    let mut values: Vec<SqlValue> = Vec::new();
    assert(sets.deep_view() =~= assignments(all.take(0), p.pk_column@));
    assert(values.deep_view() =~= assigned_values(all.take(0), p.pk_column@));
    let mut i: usize = 0;
    while i < p.columns.entries.len()
        invariant
            i <= p.columns.entries@.len(),
            all == p.columns.deep_view(),
            sets.deep_view() == assignments(all.take(i as int), p.pk_column@),
            values.deep_view() == assigned_values(all.take(i as int), p.pk_column@),
        decreases p.columns.entries@.len() - i,
    {
        assert(all.take(i + 1).drop_last() =~= all.take(i as int));
        let c = &p.columns.entries[i];
        assert(all[i as int] == (c.0@, c.1@));
        let ghost old_sets = sets.deep_view();
        let ghost old_values = values.deep_view();
        if !text_eq(c.0.as_str(), p.pk_column) {
            let set = glued(sql::quote(c.0.as_str()).as_str(), " = ?");
            sets.push(set);
            assert(sets.deep_view() =~= old_sets.push(set@));
            let value = text_value(c.1.as_str());
            values.push(value);
            assert(values.deep_view() =~= old_values.push(value.deep_view()));
        }
        i += 1;
    }
    assert(all.take(i as int) =~= all);
    (sets, values)
}

fn mark_edit(was_new: bool) -> (r: &'static str)
    ensures
        r@ == edit_mark(was_new),
{
    if was_new {
        "\"_is_new\" = 1"
    } else {
        "\"_is_modified\" = 1"
    }
}

fn make_update(p: &UpsertPlan, was_new: bool) -> (r: Statement)
    ensures
        r.deep_view() == update_model(p.deep_view(), was_new),
{
    let (sets, values) = list_assignments(p);
    assert(sets.deep_view().len() == sets@.len());
    let mut s = owned("UPDATE ");
    s.append(sql::quote(p.table.as_str()).as_str());
    s.append(" SET ");
    if sets.len() == 0 {
        s.append(mark_edit(was_new));
        s.append(" WHERE ");
        s.append(sql::quote(p.pk_column).as_str());
        s.append(" = ?1");
        let params: Vec<SqlValue> = vec![text_value(p.pk_value.as_str())];
        assert(params.deep_view() =~= seq![SqlModel::Text(p.pk_value@)]);
        Statement { what: owned("Update tracking"), sql: s, params }
    } else {
        s.append(join(&sets, ", ").as_str());
        s.append(", ");
        s.append(mark_edit(was_new));
        s.append(" WHERE ");
        s.append(sql::quote(p.pk_column).as_str());
        s.append(" = ?");
        let mut params = values;
        let ghost before = params.deep_view();
        let key = text_value(p.pk_value.as_str());
        params.push(key);
        assert(params.deep_view() =~= before.push(key.deep_view()));
        Statement { what: owned("Update row"), sql: s, params }
    }
}

#[verifier::loop_isolation(false)]
fn make_insert(p: &UpsertPlan, is_new: bool) -> (r: Statement)
    ensures
        r.deep_view() == insert_model(p.deep_view(), is_new),
{
    let ghost all = p.columns.deep_view();
    let ghost keys = textmap::keys_of(all);
    let ghost want = Seq::new(all.len(), |i: int| SqlModel::Text(all[i].1));
    let ghost marks = sql::marks(1, keys.len());
    assert(all.len() == p.columns.entries@.len());
    let mut names: Vec<String> = Vec::new();
    let mut holes: Vec<String> = Vec::new();
    let mut params: Vec<SqlValue> = Vec::new();
    assert(names.deep_view() =~= keys.take(0));
    assert(holes.deep_view() =~= marks.take(0));
    assert(params.deep_view() =~= want.take(0));
    let mut i: usize = 0;
    while i < p.columns.entries.len()
        invariant
            i <= p.columns.entries@.len(),
            all == p.columns.deep_view(),
            names.deep_view() == keys.take(i as int),
            holes.deep_view() == marks.take(i as int),
            params.deep_view() == want.take(i as int),
        decreases p.columns.entries@.len() - i,
    {
        let c = &p.columns.entries[i];
        assert(all[i as int] == (c.0@, c.1@));
        assert(keys[i as int] == c.0@);
        let ghost old_names = names.deep_view();
        let ghost old_holes = holes.deep_view();
        let ghost old_params = params.deep_view();
        let name = c.0.clone();
        names.push(name);
        assert(names.deep_view() =~= old_names.push(name@));
        let n: u64 = i as u64 + 1;
        let hole = sql::param_mark(n);
        holes.push(hole);
        assert(holes.deep_view() =~= old_holes.push(hole@));
        let value = text_value(c.1.as_str());
        params.push(value);
        assert(params.deep_view() =~= old_params.push(value.deep_view()));
        assert(keys.take(i + 1) =~= keys.take(i as int).push(keys[i as int]));
        assert(marks.take(i + 1) =~= marks.take(i as int).push(marks[i as int]));
        assert(want.take(i + 1) =~= want.take(i as int).push(want[i as int]));
        i += 1;
    }
    assert(keys.take(i as int) =~= keys);
    assert(marks.take(i as int) =~= marks);
    assert(want.take(i as int) =~= want);
    names.push(owned("_is_new"));
    names.push(owned("_is_modified"));
    assert(names.deep_view() =~= keys + seq!["_is_new"@, "_is_modified"@]);
    if is_new {
        holes.push(owned("1"));
        holes.push(owned("0"));
        assert(holes.deep_view() =~= marks + seq!["1"@, "0"@]);
    } else {
        holes.push(owned("0"));
        holes.push(owned("1"));
        assert(holes.deep_view() =~= marks + seq!["0"@, "1"@]);
    }
    let mut s = owned("INSERT INTO ");
    s.append(sql::quote(p.table.as_str()).as_str());
    s.append(" (");
    s.append(list_names(&names).as_str());
    s.append(") VALUES (");
    s.append(join(&holes, ", ").as_str());
    s.append(")");
    Statement { what: owned("Insert row"), sql: s, params }
}

/// What became of a row that was written.
#[derive(Debug)]
pub struct UpsertResult {
    pub pk_value: String,
    pub was_insert: bool,
}

/// The query that tells whether a row is there, and whether it is new.
pub fn is_new_query(table: &str, pk_column: &str) -> (r: String)
    ensures
        r@ == "SELECT \"_is_new\" FROM "@ + sql::quoted(table@) + " WHERE "@ + sql::quoted(
            pk_column@,
        ) + " = ?1"@,
{
    let mut s = owned("SELECT \"_is_new\" FROM ");
    s.append(sql::quote(table).as_str());
    s.append(" WHERE ");
    s.append(sql::quote(pk_column).as_str());
    s.append(" = ?1");
    s
}

/// The statement that writes a row, and what becomes of it. `existing` tells of
/// a row that is there whether it is new.
pub fn staging_upsert_row(p: &UpsertPlan, existing: Option<bool>, is_new: bool) -> (r: (
    Statement,
    UpsertResult,
))
    ensures
        r.0.deep_view() == (match existing {
            Some(was_new) => update_model(p.deep_view(), was_new),
            None => insert_model(p.deep_view(), is_new),
        }),
        r.1.pk_value@ == p.pk_value@,
        r.1.was_insert == (existing is None),
{
    let st = match existing {
        Some(was_new) => make_update(p, was_new),
        None => make_insert(p, is_new),
    };
    (st, UpsertResult { pk_value: p.pk_value.clone(), was_insert: existing.is_none() })
}

// ---------------------------------------------------------------------------
// Deleting a row
// ---------------------------------------------------------------------------

/// The statement that takes a row out of a table.
pub open spec fn delete_sql(table: Seq<char>, pk_column: Seq<char>) -> Seq<char> {
    "DELETE FROM "@ + sql::quoted(table) + " WHERE "@ + sql::quoted(pk_column) + " = ?1"@
}

/// The statement that marks a row as deleted or not.
pub open spec fn flag_sql(table: Seq<char>, pk_column: Seq<char>, deleted: bool) -> Seq<char> {
    "UPDATE "@ + sql::quoted(table) + " SET \"_is_deleted\" = "@ + (if deleted {
        "1"@
    } else {
        "0"@
    }) + " WHERE "@ + sql::quoted(pk_column) + " = ?1"@
}

/// The statement that takes a row out of a table.
pub fn delete_query(table: &str, pk_column: &str) -> (r: String)
    ensures
        r@ == delete_sql(table@, pk_column@),
{
    let mut s = owned("DELETE FROM ");
    s.append(sql::quote(table).as_str());
    s.append(" WHERE ");
    s.append(sql::quote(pk_column).as_str());
    s.append(" = ?1");
    s
}

fn flag_query(table: &str, pk_column: &str, deleted: bool) -> (r: String)
    ensures
        r@ == flag_sql(table@, pk_column@, deleted),
{
    let mut s = owned("UPDATE ");
    s.append(sql::quote(table).as_str());
    s.append(" SET \"_is_deleted\" = ");
    if deleted {
        s.append("1");
    } else {
        s.append("0");
    }
    s.append(" WHERE ");
    s.append(sql::quote(pk_column).as_str());
    s.append(" = ?1");
    s
}

/// An edit that deletes a row: its statement, how the journal calls it, and
/// whether the row is gone afterwards.
pub struct DeletePlan {
    pub statement: Statement,
    pub label: &'static str,
    pub gone: bool,
}

/// What an edit that deletes a row says.
pub struct DeleteModel {
    pub statement: StatementModel,
    pub label: Seq<char>,
    pub gone: bool,
}

impl DeepView for DeletePlan {
    type V = DeleteModel;

    open spec fn deep_view(&self) -> DeleteModel {
        DeleteModel {
            statement: self.statement.deep_view(),
            label: self.label@,
            gone: self.gone,
        }
    }
}

/// How a row is deleted: one that is new is taken out, any other is marked. A
/// row that is not there needs nothing.
pub open spec fn deletion(
    table: Seq<char>,
    pk_column: Seq<char>,
    pk: Seq<char>,
    existing: Option<bool>,
) -> Option<DeleteModel> {
    match existing {
        None => None,
        Some(is_new) => Some(
            DeleteModel {
                statement: StatementModel {
                    what: if is_new {
                        "Hard delete"@
                    } else {
                        "Soft delete"@
                    },
                    sql: if is_new {
                        delete_sql(table, pk_column)
                    } else {
                        flag_sql(table, pk_column, true)
                    },
                    params: seq![SqlModel::Text(pk)],
                },
                label: if is_new {
                    "delete"@
                } else {
                    "mark_deleted"@
                },
                gone: is_new,
            },
        ),
    }
}

/// How a row is deleted. `existing` tells of a row that is there whether it is
/// new.
pub fn staging_mark_deleted(table: &str, pk_column: &str, pk: &str, existing: Option<bool>) -> (r:
    Option<DeletePlan>)
    ensures
        r.deep_view() == deletion(table@, pk_column@, pk@, existing),
{
    let is_new = match existing {
        Some(n) => n,
        None => {
            return None;
        },
    };
    let params: Vec<SqlValue> = vec![text_value(pk)];
    assert(params.deep_view() =~= seq![SqlModel::Text(pk@)]);
    if is_new {
        let statement = Statement {
            what: owned("Hard delete"),
            sql: delete_query(table, pk_column),
            params,
        };
        Some(DeletePlan { statement, label: "delete", gone: true })
    } else {
        let statement = Statement {
            what: owned("Soft delete"),
            sql: flag_query(table, pk_column, true),
            params,
        };
        Some(DeletePlan { statement, label: "mark_deleted", gone: false })
    }
}

/// The statement that takes the mark off a deleted row.
pub fn staging_unmark_deleted(table: &str, pk_column: &str, pk: &str) -> (r: Statement)
    ensures
        r.deep_view() == (StatementModel {
            what: "Undelete"@,
            sql: flag_sql(table@, pk_column@, false),
            params: seq![SqlModel::Text(pk@)],
        }),
{
    let params: Vec<SqlValue> = vec![text_value(pk)];
    assert(params.deep_view() =~= seq![SqlModel::Text(pk@)]);
    Statement { what: owned("Undelete"), sql: flag_query(table, pk_column, false), params }
}

// ---------------------------------------------------------------------------
// Batches
// ---------------------------------------------------------------------------

/// An edit of a batch.
#[derive(Debug)]
pub enum StagingOperation {
    Upsert { table: String, columns: TextMap<String>, is_new: bool },
    MarkDeleted { table: String, pk: String },
    UnmarkDeleted { table: String, pk: String },
}

/// What became of a batch.
#[derive(Debug)]
pub struct StagingBatchResult {
    pub total: usize,
    pub succeeded: usize,
    pub failed: usize,
    pub errors: Vec<String>,
}

/// What the result of a batch says.
pub struct BatchModel {
    pub total: nat,
    pub succeeded: nat,
    pub failed: nat,
    pub errors: Seq<Seq<char>>,
}

impl DeepView for StagingBatchResult {
    type V = BatchModel;

    open spec fn deep_view(&self) -> BatchModel {
        BatchModel {
            total: self.total as nat,
            succeeded: self.succeeded as nat,
            failed: self.failed as nat,
            errors: self.errors.deep_view(),
        }
    }
}

/// Whether the edit at place `i` is the first that failed.
pub open spec fn first_failure(outcomes: Seq<Option<Seq<char>>>, i: int) -> bool {
    &&& 0 <= i < outcomes.len()
    &&& outcomes[i] is Some
    &&& forall|j: int| 0 <= j < i ==> (#[trigger] outcomes[j]) is None
}

/// What becomes of a batch of `total` edits, given what became of those that
/// were tried: nothing, or an error. The first error ends the batch.
#[verifier::loop_isolation(false)]
pub fn staging_batch_write(total: usize, outcomes: &Vec<Option<String>>) -> (r: StagingBatchResult)
    requires
        outcomes@.len() <= total,
    ensures
        (forall|i: int| 0 <= i < outcomes@.len() ==> (#[trigger] outcomes@[i]) is None)
            ==> r.deep_view() == (BatchModel {
            total: total as nat,
            succeeded: total as nat,
            failed: 0,
            errors: Seq::empty(),
        }),
        forall|i: int| #[trigger]
            first_failure(outcomes.deep_view(), i) ==> r.deep_view() == (BatchModel {
                total: total as nat,
                succeeded: i as nat,
                failed: (total - i) as nat,
                errors: seq![
                    "Operation "@ + text::decimal(i as nat) + ": "@ + outcomes.deep_view()[i]->0,
                ],
            }),
{
    let ghost all = outcomes.deep_view();
    let mut i: usize = 0;
    while i < outcomes.len()
        invariant
            i <= outcomes@.len(),
            all == outcomes.deep_view(),
            forall|j: int| 0 <= j < i ==> (#[trigger] all[j]) is None,
        decreases outcomes@.len() - i,
    {
        assert(all[i as int] == outcomes@[i as int].deep_view());
        match &outcomes[i] {
            Some(e) => {
                let mut m = owned("Operation ");
                m.append(decimal_text(i as u64).as_str());
                m.append(": ");
                m.append(e.as_str());
                let errors: Vec<String> = vec![m];
                assert(errors.deep_view() =~= seq![m@]);
                assert(first_failure(all, i as int));
                assert forall|k: int| #[trigger] first_failure(all, k) implies k == i by {
                    if k < i {
                        assert(all[k] is None);
                    }
                    if i < k {
                        assert(all[i as int] is None);
                    }
                }
                return StagingBatchResult { total, succeeded: i, failed: total - i, errors };
            },
            None => {},
        }
        i += 1;
    }
    let errors: Vec<String> = Vec::new();
    assert(errors.deep_view() =~= Seq::<Seq<char>>::empty());
    StagingBatchResult { total, succeeded: total, failed: 0, errors }
}

// ---------------------------------------------------------------------------
// Reading rows
// ---------------------------------------------------------------------------

/// A row as a map from columns to JSON values, from the first `n` columns.
pub open spec fn json_row(names: Seq<Seq<char>>, values: Seq<StoredModel>, n: int) -> Seq<
    (Seq<char>, JsonModel),
>
    decreases n,
{
    if n <= 0 {
        Seq::empty()
    } else {
        textmap::with_value(
            json_row(names, values, n - 1),
            names[n - 1],
            stored_json(values[n - 1]),
        )
    }
}

/// A row as a map from columns to JSON values.
#[verifier::loop_isolation(false)]
pub fn staging_get_row(names: &Vec<String>, values: &Vec<Stored>) -> (r: TextMap<Json>)
    requires
        names@.len() == values@.len(),
    ensures
        r.deep_view() == json_row(names.deep_view(), values.deep_view(), names@.len() as int),
{
    let ghost nm = names.deep_view();
    let ghost vm = values.deep_view();
    let mut r: TextMap<Json> = TextMap::new();
    let mut i: usize = 0;
    while i < names.len()
        invariant
            i <= names@.len(),
            names@.len() == values@.len(),
            nm == names.deep_view(),
            vm == values.deep_view(),
            r.deep_view() == json_row(nm, vm, i as int),
        decreases names@.len() - i,
    {
        assert(nm[i as int] == names@[i as int]@);
        assert(vm[i as int] == values@[i as int].deep_view());
        r.insert(names[i].clone(), sqlite_value_to_json(&values[i]));
        i += 1;
    }
    r
}

/// The query for the rows of a section, with or without those marked as deleted.
pub fn staging_query_section(table: &str, include_deleted: bool) -> (r: String)
    ensures
        r@ == "SELECT * FROM "@ + sql::quoted(table@) + (if include_deleted {
            ""@
        } else {
            " WHERE \"_is_deleted\" = 0"@
        }),
{
    let mut s = glued("SELECT * FROM ", sql::quote(table).as_str());
    if include_deleted {
        s.append("");
    } else {
        s.append(" WHERE \"_is_deleted\" = 0");
    }
    s
}

/// The query for a row by its key.
pub fn row_query(table: &str, pk_column: &str) -> (r: String)
    ensures
        r@ == "SELECT * FROM "@ + sql::quoted(table@) + " WHERE "@ + sql::quoted(pk_column@)
            + " = ?1"@,
{
    let mut s = glued("SELECT * FROM ", sql::quote(table).as_str());
    s.append(" WHERE ");
    s.append(sql::quote(pk_column).as_str());
    s.append(" = ?1");
    s
}

/// The query for the rows of a table that were edited.
pub fn changes_query(table: &str) -> (r: String)
    ensures
        r@ == "SELECT * FROM "@ + sql::quoted(table@)
            + " WHERE \"_is_new\" = 1 OR \"_is_modified\" = 1 OR \"_is_deleted\" = 1"@,
{
    let mut s = glued("SELECT * FROM ", sql::quote(table).as_str());
    s.append(" WHERE \"_is_new\" = 1 OR \"_is_modified\" = 1 OR \"_is_deleted\" = 1");
    s
}

/// An edited row.
#[derive(Debug)]
pub struct StagingChange {
    pub table: String,
    pub pk_value: String,
    pub change_type: &'static str,
    pub columns: TextMap<Json>,
}

/// What an edited row says.
pub struct ChangeModel {
    pub table: Seq<char>,
    pub pk_value: Seq<char>,
    pub change_type: Seq<char>,
    pub columns: Seq<(Seq<char>, JsonModel)>,
}

impl DeepView for StagingChange {
    type V = ChangeModel;

    open spec fn deep_view(&self) -> ChangeModel {
        ChangeModel {
            table: self.table@,
            pk_value: self.pk_value@,
            change_type: self.change_type@,
            columns: self.columns.deep_view(),
        }
    }
}

/// The kind of an edit: deleting counts before adding, and that before changing.
pub open spec fn change_kind(is_new: bool, is_modified: bool, is_deleted: bool) -> Seq<char> {
    if is_deleted {
        "deleted"@
    } else if is_new {
        "new"@
    } else if is_modified {
        "modified"@
    } else {
        "unknown"@
    }
}

/// A table that is asked for its edited rows.
#[derive(Debug)]
pub struct EditedTable {
    pub table: String,
    pub pk_column: &'static str,
}

/// The tables that are asked for their edited rows, each with its key: the one
/// that is asked for, or else all.
pub open spec fn asked_tables(tables: Seq<(Seq<char>, TableModel)>, only: Option<Seq<char>>) -> Seq<
    (Seq<char>, Seq<char>),
>
    decreases tables.len(),
{
    if tables.len() == 0 {
        Seq::empty()
    } else {
        let before = asked_tables(tables.drop_last(), only);
        let t = tables.last();
        if only is Some && only != Some(t.0) {
            before
        } else {
            before.push((t.0, t.1.pk_strategy.key_column()))
        }
    }
}

impl DeepView for EditedTable {
    type V = (Seq<char>, Seq<char>);

    open spec fn deep_view(&self) -> (Seq<char>, Seq<char>) {
        (self.table@, self.pk_column@)
    }
}

/// The tables that are asked for their edited rows.
#[verifier::loop_isolation(false)]
pub fn edited_tables(schema: &DiscoveredSchema, only: &Option<String>) -> (r: Vec<EditedTable>)
    ensures
        r.deep_view() == asked_tables(schema.deep_view().tables, only.deep_view()),
{
    let ghost all = schema.deep_view().tables;
    let mut r: Vec<EditedTable> = Vec::new();
    assert(r.deep_view() =~= asked_tables(all.take(0), only.deep_view()));
    let mut i: usize = 0;
    while i < schema.tables.entries.len()
        invariant
            i <= schema.tables.entries@.len(),
            all == schema.tables.deep_view(),
            r.deep_view() == asked_tables(all.take(i as int), only.deep_view()),
        decreases schema.tables.entries@.len() - i,
    {
        assert(all.take(i + 1).drop_last() =~= all.take(i as int));
        let entry = &schema.tables.entries[i];
        assert(all[i as int] == (entry.0@, entry.1.deep_view()));
        let ghost before = r.deep_view();
        let asked = match only {
            Some(name) => text_eq(name.as_str(), entry.0.as_str()),
            None => true,
        };
        if asked {
            let one = EditedTable {
                table: entry.0.clone(),
                pk_column: entry.1.pk_strategy.pk_column(),
            };
            r.push(one);
            assert(r.deep_view() =~= before.push(one.deep_view()));
        }
        i += 1;
    }
    assert(all.take(i as int) =~= all);
    r
}

/// The edited rows of a table, as they are read.
#[derive(Debug)]
pub struct EditedRows {
    pub of: EditedTable,
    pub names: Vec<String>,
    pub rows: Vec<Vec<Stored>>,
}

/// What the edited rows of a table say.
pub struct EditedRowsModel {
    pub table: Seq<char>,
    pub pk_column: Seq<char>,
    pub names: Seq<Seq<char>>,
    pub rows: Seq<Seq<StoredModel>>,
}

impl DeepView for EditedRows {
    type V = EditedRowsModel;

    open spec fn deep_view(&self) -> EditedRowsModel {
        EditedRowsModel {
            table: self.of.table@,
            pk_column: self.of.pk_column@,
            names: self.names.deep_view(),
            rows: self.rows.deep_view(),
        }
    }
}

impl EditedRows {
    /// Every row has a value for each column.
    pub open spec fn even(&self) -> bool {
        forall|i: int| 0 <= i < self.rows@.len() ==> (#[trigger] self.rows@[i])@.len() == self.names@.len()
    }
}

/// Whether a column marks edits.
pub open spec fn marks_edit(name: Seq<char>) -> bool {
    name == "_is_new"@ || name == "_is_modified"@ || name == "_is_deleted"@
}

/// Whether a mark is set, where it is a 32-bit integer.
pub open spec fn mark_set(v: StoredModel) -> Option<bool> {
    match v {
        StoredModel::Integer(n) => if i32::MIN <= n <= i32::MAX {
            Some(n == 1)
        } else {
            None
        },
        _ => None,
    }
}

fn read_mark(v: &Stored) -> (r: Option<bool>)
    ensures
        r == mark_set(v.deep_view()),
{
    match v {
        Stored::Integer(n) => {
            let n: i64 = *n;
            if i32::MIN as i64 <= n && n <= i32::MAX as i64 {
                Some(n == 1)
            } else {
                None
            }
        },
        _ => None,
    }
}

/// What is read of an edited row: its marks, its key and its other columns.
pub struct EditedModel {
    pub is_new: bool,
    pub is_modified: bool,
    pub is_deleted: bool,
    pub pk_value: Seq<char>,
    pub columns: Seq<(Seq<char>, JsonModel)>,
}

/// What is read of the first `n` columns of an edited row, unless a mark is no
/// number.
pub open spec fn edited_row(
    names: Seq<Seq<char>>,
    values: Seq<StoredModel>,
    pk_column: Seq<char>,
    n: int,
) -> Option<EditedModel>
    decreases n,
{
    if n <= 0 {
        Some(
            EditedModel {
                is_new: false,
                is_modified: false,
                is_deleted: false,
                pk_value: Seq::empty(),
                columns: Seq::empty(),
            },
        )
    } else {
        let name = names[n - 1];
        match edited_row(names, values, pk_column, n - 1) {
            None => None,
            Some(e) => if marks_edit(name) {
                match mark_set(values[n - 1]) {
                    None => None,
                    Some(set) => Some(
                        EditedModel {
                            is_new: if name == "_is_new"@ {
                                set
                            } else {
                                e.is_new
                            },
                            is_modified: if name == "_is_modified"@ {
                                set
                            } else {
                                e.is_modified
                            },
                            is_deleted: if name == "_is_deleted"@ {
                                set
                            } else {
                                e.is_deleted
                            },
                            ..e
                        },
                    ),
                }
            } else {
                let v = stored_json(values[n - 1]);
                Some(
                    EditedModel {
                        pk_value: if name == pk_column {
                            plain_text(v)
                        } else {
                            e.pk_value
                        },
                        columns: textmap::with_value(e.columns, name, v),
                        ..e
                    },
                )
            },
        }
    }
}

/// The edit of a row. It is named by the key of the row.
pub open spec fn change_of(table: Seq<char>, e: EditedModel) -> ChangeModel {
    ChangeModel {
        table,
        pk_value: e.pk_value,
        change_type: change_kind(e.is_new, e.is_modified, e.is_deleted),
        columns: e.columns,
    }
}

proof fn lemma_edited_row_fails(
    names: Seq<Seq<char>>,
    values: Seq<StoredModel>,
    pk_column: Seq<char>,
    k: int,
    n: int,
)
    requires
        k <= n,
        edited_row(names, values, pk_column, k) is None,
    ensures
        edited_row(names, values, pk_column, n) is None,
    decreases n,
{
    if k < n {
        lemma_edited_row_fails(names, values, pk_column, k, n - 1);
    }
}

#[verifier::loop_isolation(false)]
fn read_change(of: &EditedTable, names: &Vec<String>, values: &Vec<Stored>) -> (r: Option<
    StagingChange,
>)
    requires
        names@.len() == values@.len(),
    ensures
        r.deep_view() == (match edited_row(
            names.deep_view(),
            values.deep_view(),
            of.pk_column@,
            names@.len() as int,
        ) {
            Some(e) => Some(change_of(of.table@, e)),
            None => None,
        }),
{
    let ghost nm = names.deep_view();
    let ghost vm = values.deep_view();
    let ghost pk = of.pk_column@;
    let mut is_new = false;
    let mut is_modified = false;
    let mut is_deleted = false;
    let mut pk_value = String::new();
    assert(pk_value@ =~= Seq::<char>::empty());
    let mut columns: TextMap<Json> = TextMap::new();
    let mut i: usize = 0;
    while i < names.len()
        invariant
            i <= names@.len(),
            names@.len() == values@.len(),
            nm == names.deep_view(),
            vm == values.deep_view(),
            edited_row(nm, vm, pk, i as int) == Some(
                EditedModel {
                    is_new,
                    is_modified,
                    is_deleted,
                    pk_value: pk_value@,
                    columns: columns.deep_view(),
                },
            ),
        decreases names@.len() - i,
    {
        assert(nm[i as int] == names@[i as int]@);
        assert(vm[i as int] == values@[i as int].deep_view());
        let name = names[i].as_str();
        let new_mark = text_eq(name, "_is_new");
        let modified_mark = text_eq(name, "_is_modified");
        let deleted_mark = text_eq(name, "_is_deleted");
        if new_mark || modified_mark || deleted_mark {
            match read_mark(&values[i]) {
                Some(set) => {
                    if new_mark {
                        is_new = set;
                    }
                    if modified_mark {
                        is_modified = set;
                    }
                    if deleted_mark {
                        is_deleted = set;
                    }
                },
                None => {
                    proof {
                        lemma_edited_row_fails(nm, vm, pk, i + 1, names@.len() as int);
                    }
                    return None;
                },
            }
        } else {
            let v = sqlite_value_to_json(&values[i]);
            if text_eq(name, of.pk_column) {
                pk_value = write_plain(&v);
            }
            columns.insert(names[i].clone(), v);
        }
        i += 1;
    }
    let change_type = if is_deleted {
        "deleted"
    } else if is_new {
        "new"
    } else if is_modified {
        "modified"
    } else {
        "unknown"
    };
    Some(StagingChange { table: of.table.clone(), pk_value, change_type, columns })
}

/// The edits of the first `n` rows of a table. It fails where a mark is no number.
pub open spec fn row_changes(t: EditedRowsModel, n: int) -> Result<Seq<ChangeModel>, Seq<char>>
    decreases n,
{
    if n <= 0 {
        Ok(Seq::empty())
    } else {
        match row_changes(t, n - 1) {
            Err(e) => Err(e),
            Ok(list) => match edited_row(
                t.names,
                t.rows[n - 1],
                t.pk_column,
                t.names.len() as int,
            ) {
                Some(e) => Ok(list.push(change_of(t.table, e))),
                None => Err("Row error in "@ + t.table + ": a mark is no integer"@),
            },
        }
    }
}

/// The edits of the first `n` tables, up to the first that fails.
pub open spec fn all_changes(found: Seq<EditedRowsModel>, n: int) -> Result<
    Seq<ChangeModel>,
    Seq<char>,
>
    decreases n,
{
    if n <= 0 {
        Ok(Seq::empty())
    } else {
        match all_changes(found, n - 1) {
            Err(e) => Err(e),
            Ok(list) => match row_changes(found[n - 1], found[n - 1].rows.len() as int) {
                Ok(more) => Ok(list + more),
                Err(e) => Err(e),
            },
        }
    }
}

proof fn lemma_row_changes_fail(t: EditedRowsModel, k: int, n: int)
    requires
        k <= n,
        row_changes(t, k) is Err,
    ensures
        row_changes(t, n) == row_changes(t, k),
    decreases n,
{
    if k < n {
        lemma_row_changes_fail(t, k, n - 1);
    }
}

proof fn lemma_all_changes_fail(found: Seq<EditedRowsModel>, k: int, n: int)
    requires
        k <= n,
        all_changes(found, k) is Err,
    ensures
        all_changes(found, n) == all_changes(found, k),
    decreases n,
{
    if k < n {
        lemma_all_changes_fail(found, k, n - 1);
    }
}

#[verifier::loop_isolation(false)]
fn add_row_changes(list: &mut Vec<StagingChange>, t: &EditedRows) -> (r: Result<(), String>)
    requires
        t.even(),
    ensures
        match row_changes(t.deep_view(), t.rows@.len() as int) {
            Ok(more) => r is Ok && final(list).deep_view() == old(list).deep_view() + more,
            Err(e) => r matches Err(f) && f@ == e,
        },
{
    let ghost m = t.deep_view();
    let ghost start = list.deep_view();
    assert(start + Seq::<ChangeModel>::empty() =~= start);
    let mut i: usize = 0;
    while i < t.rows.len()
        invariant
            i <= t.rows@.len(),
            m == t.deep_view(),
            t.even(),
            match row_changes(m, i as int) {
                Ok(more) => list.deep_view() == start + more,
                Err(_) => false,
            },
        decreases t.rows@.len() - i,
    {
        let row = &t.rows[i];
        assert(row@.len() == t.names@.len());
        assert(m.rows[i as int] == row.deep_view());
        assert(m.names.len() == t.names@.len());
        let ghost before = list.deep_view();
        match read_change(&t.of, &t.names, row) {
            Some(change) => {
                list.push(change);
                assert(list.deep_view() =~= before.push(change.deep_view()));
                assert(list.deep_view() =~= start + row_changes(m, i + 1)->Ok_0);
            },
            None => {
                let mut e = glued("Row error in ", t.of.table.as_str());
                e.append(": a mark is no integer");
                proof {
                    lemma_row_changes_fail(m, i + 1, t.rows@.len() as int);
                }
                return Err(e);
            },
        }
        i += 1;
    }
    Ok(())
}

/// The edits of all rows that were found, in order. It fails where a mark of a
/// row is no number.
#[verifier::loop_isolation(false)]
pub fn staging_query_changes(found: &Vec<EditedRows>) -> (r: Result<Vec<StagingChange>, String>)
    requires
        forall|i: int| 0 <= i < found@.len() ==> (#[trigger] found@[i]).even(),
    ensures
        match all_changes(found.deep_view(), found@.len() as int) {
            Ok(list) => r matches Ok(changes) && changes.deep_view() == list,
            Err(e) => r matches Err(f) && f@ == e,
        },
{
    let ghost all = found.deep_view();
    let mut list: Vec<StagingChange> = Vec::new();
    assert(list.deep_view() =~= Seq::<ChangeModel>::empty());
    let mut i: usize = 0;
    while i < found.len()
        invariant
            i <= found@.len(),
            all == found.deep_view(),
            forall|i: int| 0 <= i < found@.len() ==> (#[trigger] found@[i]).even(),
            all_changes(all, i as int) == Ok::<Seq<ChangeModel>, Seq<char>>(list.deep_view()),
        decreases found@.len() - i,
    {
        assert(all[i as int] == found@[i as int].deep_view());
        assert(all[i as int].rows.len() == found@[i as int].rows@.len());
        match add_row_changes(&mut list, &found[i]) {
            Ok(_) => {},
            Err(e) => {
                proof {
                    lemma_all_changes_fail(all, i + 1, found@.len() as int);
                }
                return Err(e);
            },
        }
        i += 1;
    }
    Ok(list)
}

/// The numbers of rows of a table.
pub struct SectionCounts {
    pub total: i64,
    pub active: Option<i64>,
    pub new: Option<i64>,
    pub modified: Option<i64>,
    pub deleted: Option<i64>,
}

/// The numbers of rows of a section.
#[derive(Debug)]
pub struct StagingSectionSummary {
    pub table_name: String,
    pub region_id: Option<String>,
    pub node_id: Option<String>,
    pub source_type: String,
    pub total_rows: usize,
    pub active_rows: usize,
    pub new_rows: usize,
    pub modified_rows: usize,
    pub deleted_rows: usize,
}

/// What the numbers of rows of a section say.
pub struct SummaryModel {
    pub table_name: Seq<char>,
    pub region_id: Option<Seq<char>>,
    pub node_id: Option<Seq<char>>,
    pub source_type: Seq<char>,
    pub total_rows: usize,
    pub active_rows: usize,
    pub new_rows: usize,
    pub modified_rows: usize,
    pub deleted_rows: usize,
}

impl DeepView for StagingSectionSummary {
    type V = SummaryModel;

    open spec fn deep_view(&self) -> SummaryModel {
        SummaryModel {
            table_name: self.table_name@,
            region_id: self.region_id.deep_view(),
            node_id: self.node_id.deep_view(),
            source_type: self.source_type@,
            total_rows: self.total_rows,
            active_rows: self.active_rows,
            new_rows: self.new_rows,
            modified_rows: self.modified_rows,
            deleted_rows: self.deleted_rows,
        }
    }
}

/// A number of rows; a sum over no rows counts as zero.
pub open spec fn row_number(n: Option<i64>) -> usize {
    match n {
        Some(k) => k as usize,
        None => 0,
    }
}

fn count_number(n: Option<i64>) -> (r: usize)
    ensures
        r == row_number(n),
{
    match n {
        Some(k) => #[verifier::truncate] (k as usize),
        None => 0,
    }
}

/// The query for the numbers of rows of a table.
pub fn counts_query(table: &str) -> (r: String)
    ensures
        r@
            == "SELECT COUNT(*), SUM(CASE WHEN \"_is_deleted\" = 0 THEN 1 ELSE 0 END), SUM(CASE WHEN \"_is_new\" = 1 THEN 1 ELSE 0 END), SUM(CASE WHEN \"_is_modified\" = 1 THEN 1 ELSE 0 END), SUM(CASE WHEN \"_is_deleted\" = 1 THEN 1 ELSE 0 END) FROM "@
            + sql::quoted(table@),
{
    glued(
        "SELECT COUNT(*), SUM(CASE WHEN \"_is_deleted\" = 0 THEN 1 ELSE 0 END), SUM(CASE WHEN \"_is_new\" = 1 THEN 1 ELSE 0 END), SUM(CASE WHEN \"_is_modified\" = 1 THEN 1 ELSE 0 END), SUM(CASE WHEN \"_is_deleted\" = 1 THEN 1 ELSE 0 END) FROM ",
        sql::quote(table).as_str(),
    )
}

/// The summary of a table.
pub open spec fn summary_of(table: Seq<char>, t: TableModel, c: SectionCounts) -> SummaryModel {
    SummaryModel {
        table_name: table,
        region_id: t.region_id,
        node_id: t.node_id,
        source_type: t.source_type,
        total_rows: c.total as usize,
        active_rows: row_number(c.active),
        new_rows: row_number(c.new),
        modified_rows: row_number(c.modified),
        deleted_rows: row_number(c.deleted),
    }
}

/// The summaries of all tables of the schema, given the numbers of their rows in
/// the same order.
#[verifier::loop_isolation(false)]
pub fn staging_list_sections(schema: &DiscoveredSchema, counts: &Vec<SectionCounts>) -> (r: Vec<
    StagingSectionSummary,
>)
    requires
        counts@.len() == schema.deep_view().tables.len(),
    ensures
        r.deep_view() == Seq::new(
            counts@.len(),
            |i: int|
                summary_of(
                    schema.deep_view().tables[i].0,
                    schema.deep_view().tables[i].1,
                    counts@[i],
                ),
        ),
{
    let ghost all = schema.deep_view().tables;
    let ghost want = Seq::new(
        counts@.len(),
        |i: int| summary_of(all[i].0, all[i].1, counts@[i]),
    );
    let mut r: Vec<StagingSectionSummary> = Vec::new();
    assert(r.deep_view() =~= want.take(0));
    assert(all.len() == schema.tables.entries@.len());
    let mut i: usize = 0;
    while i < counts.len()
        invariant
            i <= counts@.len(),
            all == schema.tables.deep_view(),
            counts@.len() == schema.tables.entries@.len(),
            r.deep_view() == want.take(i as int),
        decreases counts@.len() - i,
    {
        let entry = &schema.tables.entries[i];
        assert(all[i as int] == (entry.0@, entry.1.deep_view()));
        let c = &counts[i];
        let one = StagingSectionSummary {
            table_name: entry.0.clone(),
            region_id: copy_opt(&entry.1.region_id),
            node_id: copy_opt(&entry.1.node_id),
            source_type: entry.1.source_type.clone(),
            total_rows: #[verifier::truncate] (c.total as usize),
            active_rows: count_number(c.active),
            new_rows: count_number(c.new),
            modified_rows: count_number(c.modified),
            deleted_rows: count_number(c.deleted),
        };
        let ghost before = r.deep_view();
        r.push(one);
        assert(r.deep_view() =~= before.push(one.deep_view()));
        assert(want.take(i + 1) =~= want.take(i as int).push(want[i as int]));
        i += 1;
    }
    assert(want.take(i as int) =~= want);
    r
}

// ---------------------------------------------------------------------------
// Notes
// ---------------------------------------------------------------------------

/// The query for a note.
pub fn staging_get_meta(key: &str) -> (r: Statement)
    ensures
        r.deep_view() == (StatementModel {
            what: sql::naming("Get meta"@, key@),
            sql: "SELECT value FROM _staging_authoring WHERE key = ?1 AND \"_is_deleted\" = 0"@,
            params: seq![SqlModel::Text(key@)],
        }),
{
    let params: Vec<SqlValue> = vec![text_value(key)];
    assert(params.deep_view() =~= seq![SqlModel::Text(key@)]);
    Statement {
        what: sql::name_in("Get meta", key),
        sql: owned("SELECT value FROM _staging_authoring WHERE key = ?1 AND \"_is_deleted\" = 0"),
        params,
    }
}

/// The statement that keeps a note.
pub open spec fn set_meta_model(key: Seq<char>, value: Seq<char>) -> StatementModel {
    StatementModel {
        what: sql::naming("Set meta"@, key),
        sql: "INSERT OR REPLACE INTO _staging_authoring (key, value) VALUES (?1, ?2)"@,
        params: seq![SqlModel::Text(key), SqlModel::Text(value)],
    }
}

/// The statement that keeps a note.
pub fn staging_set_meta(key: &str, value: &str) -> (r: Statement)
    ensures
        r.deep_view() == set_meta_model(key@, value@),
{
    let params: Vec<SqlValue> = vec![text_value(key), text_value(value)];
    assert(params.deep_view() =~= seq![SqlModel::Text(key@), SqlModel::Text(value@)]);
    Statement {
        what: sql::name_in("Set meta", key),
        sql: owned("INSERT OR REPLACE INTO _staging_authoring (key, value) VALUES (?1, ?2)"),
        params,
    }
}

// ---------------------------------------------------------------------------
// Replacing a section
// ---------------------------------------------------------------------------

/// Columns with one more, where a row has it.
pub open spec fn with_shared(
    columns: Seq<Seq<char>>,
    row: Seq<(Seq<char>, JsonModel)>,
    name: Seq<char>,
) -> Seq<Seq<char>> {
    if textmap::has_key(row, name) {
        textmap::with_member(columns, name)
    } else {
        columns
    }
}

/// Columns with those data columns of a table that a row has.
pub open spec fn with_shared_data(
    start: Seq<Seq<char>>,
    columns: Seq<ColumnModel>,
    row: Seq<(Seq<char>, JsonModel)>,
) -> Seq<Seq<char>>
    decreases columns.len(),
{
    if columns.len() == 0 {
        start
    } else {
        with_shared(with_shared_data(start, columns.drop_last(), row), row, columns.last().name)
    }
}

/// The columns that are restored: the key, the numbers of the file and of the
/// module, the data columns and the marks, as far as the first row has them.
pub open spec fn restored_columns(t: TableModel, first: Seq<(Seq<char>, JsonModel)>) -> Seq<
    Seq<char>,
> {
    let key = with_shared(Seq::empty(), first, t.pk_strategy.key_column());
    let file = with_shared(key, first, "_file_id"@);
    let source = with_shared(file, first, "_SourceID"@);
    let data = with_shared_data(source, t.columns, first);
    let new = with_shared(data, first, "_is_new"@);
    let modified = with_shared(new, first, "_is_modified"@);
    with_shared(modified, first, "_is_deleted"@)
}

#[verifier::loop_isolation(false)]
fn add_shared_data(list: &mut Vec<String>, columns: &Vec<ColumnDef>, row: &TextMap<Json>)
    ensures
        final(list).deep_view() == with_shared_data(
            old(list).deep_view(),
            columns.deep_view(),
            row.deep_view(),
        ),
{
    let ghost start = list.deep_view();
    let ghost all = columns.deep_view();
    let mut i: usize = 0;
    while i < columns.len()
        invariant
            i <= columns@.len(),
            all == columns.deep_view(),
            list.deep_view() == with_shared_data(start, all.take(i as int), row.deep_view()),
        decreases columns@.len() - i,
    {
        assert(all.take(i + 1).drop_last() =~= all.take(i as int));
        assert(all[i as int] == columns@[i as int].deep_view());
        add_shared(list, row, columns[i].name.as_str());
        i += 1;
    }
    assert(all.take(i as int) =~= all);
}

fn list_restored(t: &TableSchema, first: &TextMap<Json>) -> (r: Vec<String>)
    ensures
        r.deep_view() == restored_columns(t.deep_view(), first.deep_view()),
{
    let mut r: Vec<String> = Vec::new();
    assert(r.deep_view() =~= Seq::<Seq<char>>::empty());
    add_shared(&mut r, first, t.pk_strategy.pk_column());
    add_shared(&mut r, first, "_file_id");
    add_shared(&mut r, first, "_SourceID");
    add_shared_data(&mut r, &t.columns, first);
    add_shared(&mut r, first, "_is_new");
    add_shared(&mut r, first, "_is_modified");
    add_shared(&mut r, first, "_is_deleted");
    r
}

fn add_shared(columns: &mut Vec<String>, row: &TextMap<Json>, name: &str)
    ensures
        final(columns).deep_view() == with_shared(
            old(columns).deep_view(),
            row.deep_view(),
            name@,
        ),
{
    if row.contains_key(name) {
        textmap::add_member(columns, name);
    }
}

/// The value of a column in a row, as it is stored; a missing one is nothing.
pub open spec fn row_cell(row: Seq<(Seq<char>, JsonModel)>, name: Seq<char>) -> SqlModel {
    match textmap::value_of(row, name) {
        Some(v) => json_stored(v),
        None => SqlModel::Null,
    }
}

#[verifier::loop_isolation(false)]
fn list_cells(row: &TextMap<Json>, columns: &Vec<String>) -> (r: Vec<SqlValue>)
    ensures
        r.deep_view() == columns.deep_view().map_values(
            |c: Seq<char>| row_cell(row.deep_view(), c),
        ),
{
    let ghost all = columns.deep_view();
    let ghost rm = row.deep_view();
    let ghost want = all.map_values(|c: Seq<char>| row_cell(rm, c));
    let mut r: Vec<SqlValue> = Vec::new();
    assert(r.deep_view() =~= want.take(0));
    let mut i: usize = 0;
    while i < columns.len()
        invariant
            i <= columns@.len(),
            all == columns.deep_view(),
            r.deep_view() == want.take(i as int),
        decreases columns@.len() - i,
    {
        assert(all[i as int] == columns@[i as int]@);
        let one = match row.get(columns[i].as_str()) {
            Some(v) => json_value_to_sql(v),
            None => SqlValue::Null,
        };
        let ghost before = r.deep_view();
        r.push(one);
        assert(r.deep_view() =~= before.push(one.deep_view()));
        assert(want.take(i + 1) =~= want.take(i as int).push(want[i as int]));
        i += 1;
    }
    assert(want.take(i as int) =~= want);
    r
}

/// The statement that restores a row.
pub open spec fn restore_model(
    table: Seq<char>,
    columns: Seq<Seq<char>>,
    row: Seq<(Seq<char>, JsonModel)>,
) -> StatementModel {
    StatementModel {
        what: "Insert baseline row"@,
        sql: "INSERT INTO "@ + sql::quoted(table) + " ("@ + sql::name_list(columns)
            + ") VALUES ("@ + sql::mark_list(1, columns.len()) + ")"@,
        params: columns.map_values(|c: Seq<char>| row_cell(row, c)),
    }
}

/// The statements that put rows in the place of all rows of a table: all are
/// taken out, and each row is put in, with the columns that the first one has.
pub open spec fn replacement(
    table: Seq<char>,
    t: TableModel,
    rows: Seq<Seq<(Seq<char>, JsonModel)>>,
) -> Seq<StatementModel> {
    let columns = restored_columns(t, rows[0]);
    seq![
        StatementModel {
            what: sql::naming("Clear table"@, table),
            sql: "DELETE FROM "@ + sql::quoted(table),
            params: Seq::empty(),
        },
    ] + Seq::new(rows.len(), |i: int| restore_model(table, columns, rows[i]))
}

/// The statements that put rows in the place of all rows of a table. It fails
/// where the table is not there.
#[verifier::loop_isolation(false)]
pub fn staging_replace_section(
    schema: &DiscoveredSchema,
    table: &str,
    rows: &Vec<TextMap<Json>>,
) -> (r: Result<Vec<Statement>, String>)
    ensures
        match textmap::value_of(schema.deep_view().tables, table@) {
            Some(t) => r matches Ok(list) && list.deep_view() == replacement(
                table@,
                t,
                rows.deep_view(),
            ),
            None => r matches Err(e) && e@ == "Table '"@ + table@ + "' not in embedded schema"@,
        },
{
    let t = match schema.tables.get(table) {
        Some(t) => t,
        None => {
            let mut e = owned("Table '");
            e.append(table);
            e.append("' not in embedded schema");
            return Err(e);
        },
    };
    let ghost all = rows.deep_view();
    let ghost want = replacement(table@, t.deep_view(), all);
    let none: Vec<SqlValue> = Vec::new();
    assert(none.deep_view() =~= Seq::<SqlModel>::empty());
    let mut r: Vec<Statement> = vec![
        Statement {
            what: sql::name_in("Clear table", table),
            sql: glued("DELETE FROM ", sql::quote(table).as_str()),
            params: none,
        },
    ];
    assert(r.deep_view() =~= want.take(1));
    if rows.len() == 0 {
        assert(want.take(1) =~= want);
        return Ok(r);
    }
    assert(all[0] == rows@[0].deep_view());
    let columns = list_restored(t, &rows[0]);
    assert(columns.deep_view().len() == columns@.len());
    let mut i: usize = 0;
    while i < rows.len()
        invariant
            i <= rows@.len(),
            all == rows.deep_view(),
            columns.deep_view() == restored_columns(t.deep_view(), all[0]),
            r.deep_view() == want.take(1 + i),
        decreases rows@.len() - i,
    {
        assert(all[i as int] == rows@[i as int].deep_view());
        let mut s = owned("INSERT INTO ");
        s.append(sql::quote(table).as_str());
        s.append(" (");
        s.append(list_names(&columns).as_str());
        s.append(") VALUES (");
        s.append(list_marks(1, columns.len()).as_str());
        s.append(")");
        let one = Statement {
            what: owned("Insert baseline row"),
            sql: s,
            params: list_cells(&rows[i], &columns),
        };
        let ghost before = r.deep_view();
        r.push(one);
        assert(r.deep_view() =~= before.push(one.deep_view()));
        assert(want.take(2 + i) =~= want.take(1 + i).push(want[1 + i]));
        i += 1;
    }
    assert(want.take(1 + i) =~= want);
    Ok(r)
}

/// Whether a table has a column: the key, the number of the file, the number of
/// the module, a data column or a mark.
pub open spec fn table_has(t: TableModel, c: Seq<char>) -> bool {
    ||| c == t.pk_strategy.key_column()
    ||| t.has_file_id && c == "_file_id"@
    ||| t.pk_strategy != PkStrategy::Rowid && c == "_SourceID"@
    ||| ddl::lists_column(t.columns, c)
    ||| marks_edit(c)
}

proof fn lemma_shared_stays(
    columns: Seq<Seq<char>>,
    row: Seq<(Seq<char>, JsonModel)>,
    name: Seq<char>,
)
    ensures
        columns.no_duplicates() ==> with_shared(columns, row, name).no_duplicates(),
        forall|c: Seq<char>|
            columns.contains(c) ==> #[trigger] with_shared(columns, row, name).contains(c),
        textmap::has_key(row, name) ==> with_shared(columns, row, name).contains(name),
{
    let r = with_shared(columns, row, name);
    if textmap::has_key(row, name) && !columns.contains(name) {
        assert(r == columns.push(name));
        assert(r[columns.len() as int] == name);
        assert forall|c: Seq<char>| columns.contains(c) implies #[trigger] r.contains(c) by {
            let i = choose|i: int| 0 <= i < columns.len() && columns[i] == c;
            assert(r[i] == c);
        }
    }
}

proof fn lemma_shared_data_stays(
    start: Seq<Seq<char>>,
    columns: Seq<ColumnModel>,
    row: Seq<(Seq<char>, JsonModel)>,
)
    ensures
        start.no_duplicates() ==> with_shared_data(start, columns, row).no_duplicates(),
        forall|c: Seq<char>|
            start.contains(c) ==> #[trigger] with_shared_data(start, columns, row).contains(c),
        forall|c: Seq<char>|
            ddl::lists_column(columns, c) && textmap::has_key(row, c)
                ==> #[trigger] with_shared_data(start, columns, row).contains(c),
    decreases columns.len(),
{
    if columns.len() > 0 {
        let d = columns.drop_last();
        lemma_shared_data_stays(start, d, row);
        lemma_shared_stays(with_shared_data(start, d, row), row, columns.last().name);
        let r = with_shared_data(start, columns, row);
        assert forall|c: Seq<char>|
            ddl::lists_column(columns, c) && textmap::has_key(row, c) implies #[trigger] r.contains(
            c,
        ) by {
            let i = choose|i: int| 0 <= i < columns.len() && (#[trigger] columns[i]).name == c;
            if i < d.len() {
                assert(d[i].name == c);
                assert(ddl::lists_column(d, c));
                assert(with_shared_data(start, d, row).contains(c));
            }
        }
    }
}

/// A row that is put back equals the row that was given on every column that
/// the table has: no column is written twice, and each column that the rows come
/// with is written with the value of the row.
pub proof fn law_rows_are_restored(
    table: Seq<char>,
    t: TableModel,
    rows: Seq<Seq<(Seq<char>, JsonModel)>>,
    i: int,
)
    requires
        0 <= i < rows.len(),
    ensures
        ({
            let columns = restored_columns(t, rows[0]);
            let all = replacement(table, t, rows);
            &&& all.len() == rows.len() + 1
            &&& all[i + 1] == restore_model(table, columns, rows[i])
            &&& columns.no_duplicates()
            &&& all[i + 1].params.len() == columns.len()
            &&& forall|k: int|
                0 <= k < columns.len() ==> #[trigger] all[i + 1].params[k] == row_cell(
                    rows[i],
                    columns[k],
                )
            &&& forall|c: Seq<char>|
                table_has(t, c) && textmap::has_key(rows[0], c) ==> #[trigger] columns.contains(c)
        }),
{
    let first = rows[0];
    let empty = Seq::<Seq<char>>::empty();
    let key = with_shared(empty, first, t.pk_strategy.key_column());
    let file = with_shared(key, first, "_file_id"@);
    let source = with_shared(file, first, "_SourceID"@);
    let data = with_shared_data(source, t.columns, first);
    let new = with_shared(data, first, "_is_new"@);
    let modified = with_shared(new, first, "_is_modified"@);
    let columns = restored_columns(t, first);
    lemma_shared_stays(empty, first, t.pk_strategy.key_column());
    lemma_shared_stays(key, first, "_file_id"@);
    lemma_shared_stays(file, first, "_SourceID"@);
    lemma_shared_data_stays(source, t.columns, first);
    lemma_shared_stays(data, first, "_is_new"@);
    lemma_shared_stays(new, first, "_is_modified"@);
    lemma_shared_stays(modified, first, "_is_deleted"@);
    assert forall|c: Seq<char>|
        table_has(t, c) && textmap::has_key(first, c) implies #[trigger] columns.contains(c) by {
        if key.contains(c) {
            assert(file.contains(c));
        }
        if file.contains(c) {
            assert(source.contains(c));
        }
        if source.contains(c) {
            assert(data.contains(c));
        }
        if data.contains(c) {
            assert(new.contains(c));
        }
        if new.contains(c) {
            assert(modified.contains(c));
        }
    }
}

} // verus!
