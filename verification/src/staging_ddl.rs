//! The statements that create a staging database: the tables of the reference
//! database with columns that track edits, and nothing enforced.

use vstd::prelude::*;
use vstd::string::*;
use crate::ddl;
use crate::ddl::{add_column_lines, add_line, define, has_data_column, make_key_line};
use crate::schema::{ColumnDef, ColumnModel, DiscoveredSchema, JunctionDef, JunctionModel,
    PkStrategy, TableModel, TableSchema};
use crate::sql;
use crate::sql::{text_value, Statement, StatementModel};
use crate::text;
use crate::text::owned;
use crate::types::{SqlModel, SqlValue};

verus! {

/// The tables of a staging database that describe it.
pub const STAGING_META_TABLES: &'static str = "CREATE TABLE _sources (\n    id   INTEGER PRIMARY KEY,\n    name TEXT NOT NULL UNIQUE\n);\n\nCREATE TABLE _source_files (\n    file_id   INTEGER PRIMARY KEY AUTOINCREMENT,\n    path      TEXT NOT NULL UNIQUE,\n    file_type TEXT NOT NULL,\n    mod_name  TEXT,\n    region_id TEXT,\n    row_count INTEGER DEFAULT 0,\n    file_size INTEGER\n);\n\nCREATE TABLE _column_types (\n    table_name  TEXT NOT NULL,\n    column_name TEXT NOT NULL,\n    bg3_type    TEXT,\n    sqlite_type TEXT NOT NULL,\n    PRIMARY KEY (table_name, column_name)\n) WITHOUT ROWID;\n\nCREATE TABLE _table_meta (\n    table_name    TEXT PRIMARY KEY,\n    source_type   TEXT NOT NULL,\n    region_id     TEXT,\n    node_id       TEXT,\n    parent_tables TEXT,\n    row_count     INTEGER DEFAULT 0\n) WITHOUT ROWID;\n\nCREATE TABLE IF NOT EXISTS _staging_authoring (\n    key TEXT PRIMARY KEY,\n    value TEXT NOT NULL,\n    _is_new INTEGER NOT NULL DEFAULT 0,\n    _is_modified INTEGER NOT NULL DEFAULT 0,\n    _is_deleted INTEGER NOT NULL DEFAULT 0,\n    _original_hash TEXT\n) WITHOUT ROWID;";

/// The table of what is noted of the staging database as a whole.
pub const AUTHORING_TABLE: &'static str = "CREATE TABLE IF NOT EXISTS _staging_authoring (\n    key TEXT PRIMARY KEY,\n    value TEXT NOT NULL,\n    _is_new INTEGER NOT NULL DEFAULT 0,\n    _is_modified INTEGER NOT NULL DEFAULT 0,\n    _is_deleted INTEGER NOT NULL DEFAULT 0,\n    _original_hash TEXT\n) WITHOUT ROWID;";

/// The journal of edits.
pub const UNDO_JOURNAL_TABLE: &'static str = "CREATE TABLE IF NOT EXISTS _staging_undo_journal (\n    id INTEGER PRIMARY KEY,\n    label TEXT NOT NULL,\n    table_name TEXT NOT NULL,\n    pk_value TEXT NOT NULL,\n    old_row TEXT,\n    new_row TEXT,\n    created_at TEXT NOT NULL DEFAULT (datetime('now'))\n);";

/// The columns that track edits, in a table definition.
pub open spec fn tracking_lines() -> Seq<Seq<char>> {
    seq![
        "    \"_is_modified\" INTEGER NOT NULL DEFAULT 0"@,
        "    \"_is_new\" INTEGER NOT NULL DEFAULT 0"@,
        "    \"_is_deleted\" INTEGER NOT NULL DEFAULT 0"@,
    ]
}

/// The lines of the definition of a staging table.
pub open spec fn staging_lines(t: TableModel) -> Seq<Seq<char>> {
    seq![ddl::key_line(t.pk_strategy)] + (if t.has_file_id {
        seq!["    _file_id INTEGER"@]
    } else {
        Seq::empty()
    }) + (if t.pk_strategy == PkStrategy::Rowid {
        Seq::empty()
    } else {
        seq!["    \"_SourceID\" INTEGER"@]
    }) + ddl::column_lines(t.columns) + tracking_lines()
}

fn add_tracking_lines(lines: &mut Vec<String>)
    ensures
        final(lines).deep_view() == old(lines).deep_view() + tracking_lines(),
{
    let ghost start = lines.deep_view();
    add_line(lines, owned("    \"_is_modified\" INTEGER NOT NULL DEFAULT 0"));
    add_line(lines, owned("    \"_is_new\" INTEGER NOT NULL DEFAULT 0"));
    add_line(lines, owned("    \"_is_deleted\" INTEGER NOT NULL DEFAULT 0"));
    assert(lines.deep_view() =~= start + tracking_lines());
}

/// The definition of a staging table: no constraints, and the columns that track
/// edits.
pub fn create_staging_data_table(t: &TableSchema) -> (r: String)
    ensures
        r@ == ddl::definition(t.table_name@, staging_lines(t.deep_view())),
{
    let mut lines: Vec<String> = Vec::new();
    add_line(&mut lines, make_key_line(t.pk_strategy));
    if t.has_file_id {
        add_line(&mut lines, owned("    _file_id INTEGER"));
    }
    if t.pk_strategy != PkStrategy::Rowid {
        add_line(&mut lines, owned("    \"_SourceID\" INTEGER"));
    }
    add_column_lines(&mut lines, &t.columns);
    add_tracking_lines(&mut lines);
    assert(lines.deep_view() =~= staging_lines(t.deep_view()));
    define(t.table_name.as_str(), &lines)
}

/// The definition of a staging table ends in the columns that track edits.
pub proof fn law_staging_tables_track(t: TableModel)
    ensures
        tracking_lines().is_suffix_of(staging_lines(t)),
{
    let lines = staging_lines(t);
    assert(lines.subrange(lines.len() - 3, lines.len() as int) =~= tracking_lines());
}

/// The definition of a staging junction.
pub open spec fn staging_junction_ddl(j: JunctionModel) -> Seq<char> {
    "CREATE TABLE IF NOT EXISTS \""@ + j.table_name + "\" (\n    parent_id "@ + j.parent_pk_type
        + " NOT NULL,\n    child_id "@ + j.child_pk_type
        + " NOT NULL,\n    \"_is_modified\" INTEGER NOT NULL DEFAULT 0,\n    \"_is_new\" INTEGER NOT NULL DEFAULT 0,\n    \"_is_deleted\" INTEGER NOT NULL DEFAULT 0,\n    PRIMARY KEY (parent_id, child_id)\n) WITHOUT ROWID"@
}

/// The definition of a staging junction.
pub fn create_staging_junction(j: &JunctionDef) -> (r: String)
    ensures
        r@ == staging_junction_ddl(j.deep_view()),
{
    let mut r = owned("CREATE TABLE IF NOT EXISTS \"");
    r.append(j.table_name.as_str());
    r.append("\" (\n    parent_id ");
    r.append(j.parent_pk_type.as_str());
    r.append(" NOT NULL,\n    child_id ");
    r.append(j.child_pk_type.as_str());
    r.append(
        " NOT NULL,\n    \"_is_modified\" INTEGER NOT NULL DEFAULT 0,\n    \"_is_new\" INTEGER NOT NULL DEFAULT 0,\n    \"_is_deleted\" INTEGER NOT NULL DEFAULT 0,\n    PRIMARY KEY (parent_id, child_id)\n) WITHOUT ROWID",
    );
    r
}

/// The index that keeps the identifiers of a table apart.
pub open spec fn uuid_index(table: Seq<char>) -> Seq<char> {
    "CREATE UNIQUE INDEX IF NOT EXISTS \"uq_"@ + table + "_UUID\" ON \""@ + table + "\"(\"UUID\")"@
}

/// The indexes on columns of tables that hold identifiers without being the key.
pub open spec fn uuid_indexes(tables: Seq<(Seq<char>, TableModel)>) -> Seq<Seq<char>>
    decreases tables.len(),
{
    if tables.len() == 0 {
        Seq::empty()
    } else {
        let before = uuid_indexes(tables.drop_last());
        let t = tables.last();
        if t.1.pk_strategy != PkStrategy::Uuid && ddl::lists_column(t.1.columns, "UUID"@) {
            before.push(uuid_index(t.0))
        } else {
            before
        }
    }
}

/// The indexes that keep identifiers apart where they are not the key.
#[verifier::loop_isolation(false)]
pub fn build_uuid_indexes(schema: &DiscoveredSchema) -> (r: Vec<String>)
    ensures
        r.deep_view() == uuid_indexes(schema.deep_view().tables),
{
    let ghost all = schema.deep_view().tables;
    let mut r: Vec<String> = Vec::new();
    assert(r.deep_view() =~= uuid_indexes(all.take(0)));
    let mut i: usize = 0;
    while i < schema.tables.entries.len()
        invariant
            i <= schema.tables.entries@.len(),
            all == schema.tables.deep_view(),
            r.deep_view() == uuid_indexes(all.take(i as int)),
        decreases schema.tables.entries@.len() - i,
    {
        assert(all.take(i + 1).drop_last() =~= all.take(i as int));
        let entry = &schema.tables.entries[i];
        assert(all[i as int] == (entry.0@, entry.1.deep_view()));
        if entry.1.pk_strategy != PkStrategy::Uuid && has_data_column(&entry.1.columns, "UUID") {
            let mut s = owned("CREATE UNIQUE INDEX IF NOT EXISTS \"uq_");
            s.append(entry.0.as_str());
            s.append("_UUID\" ON \"");
            s.append(entry.0.as_str());
            s.append("\"(\"UUID\")");
            add_line(&mut r, s);
        }
        i += 1;
    }
    assert(all.take(i as int) =~= all);
    r
}

/// The statement that notes the types of a column.
pub open spec fn type_row(
    table: Seq<char>,
    column: Seq<char>,
    bg3_type: Option<Seq<char>>,
    sqlite_type: Seq<char>,
) -> StatementModel {
    StatementModel {
        what: "Insert column_types "@ + table + "."@ + column,
        sql: "INSERT OR IGNORE INTO _column_types (table_name, column_name, bg3_type, sqlite_type) VALUES (?1, ?2, ?3, ?4)"@,
        params: seq![
            SqlModel::Text(table),
            SqlModel::Text(column),
            sql::optional_value(bg3_type),
            SqlModel::Text(sqlite_type),
        ],
    }
}

fn make_type_row(table: &str, column: &str, bg3_type: Option<String>, sqlite_type: &str) -> (r:
    Statement)
    ensures
        r.deep_view() == type_row(table@, column@, bg3_type.deep_view(), sqlite_type@),
{
    let params: Vec<SqlValue> = vec![
        text_value(table),
        text_value(column),
        sql::opt_value(&bg3_type),
        text_value(sqlite_type),
    ];
    assert(params.deep_view() =~= type_row(
        table@,
        column@,
        bg3_type.deep_view(),
        sqlite_type@,
    ).params);
    let mut what = owned("Insert column_types ");
    what.append(table);
    what.append(".");
    what.append(column);
    Statement {
        what,
        sql: owned(
            "INSERT OR IGNORE INTO _column_types (table_name, column_name, bg3_type, sqlite_type) VALUES (?1, ?2, ?3, ?4)",
        ),
        params,
    }
}

/// The statements that note the types of data columns; an empty game type counts
/// as none.
pub open spec fn column_rows(table: Seq<char>) -> spec_fn(ColumnModel) -> Seq<StatementModel> {
    |c: ColumnModel| seq![type_row(table, c.name, text::nonempty(Some(c.bg3_type)), c.sqlite_type)]
}

/// The statements that note the types of the columns of a staging table: its
/// key, its data columns and those that track edits.
pub open spec fn staging_type_rows() -> spec_fn((Seq<char>, TableModel)) -> Seq<StatementModel> {
    |t: (Seq<char>, TableModel)|
        seq![type_row(t.0, t.1.pk_strategy.key_column(), None, t.1.pk_strategy.key_type())]
            + sql::statements_of(t.1.columns, column_rows(t.0)) + seq![
            type_row(t.0, "_is_modified"@, None, "INTEGER"@),
            type_row(t.0, "_is_new"@, None, "INTEGER"@),
            type_row(t.0, "_is_deleted"@, None, "INTEGER"@),
        ]
}

fn add_statement(out: &mut Vec<Statement>, st: Statement)
    ensures
        final(out).deep_view() == old(out).deep_view().push(st.deep_view()),
{
    let ghost before = out.deep_view();
    out.push(st);
    assert(out.deep_view() =~= before.push(st.deep_view()));
}

#[verifier::loop_isolation(false)]
fn add_column_rows(out: &mut Vec<Statement>, table: &str, columns: &Vec<ColumnDef>)
    ensures
        final(out).deep_view() == old(out).deep_view() + sql::statements_of(
            columns.deep_view(),
            column_rows(table@),
        ),
{
    let ghost start = out.deep_view();
    let ghost all = columns.deep_view();
    let ghost f = column_rows(table@);
    assert(start + sql::statements_of(all.take(0), f) =~= start);
    let mut i: usize = 0;
    while i < columns.len()
        invariant
            i <= columns@.len(),
            all == columns.deep_view(),
            f == column_rows(table@),
            out.deep_view() == start + sql::statements_of(all.take(i as int), f),
        decreases columns@.len() - i,
    {
        proof {
            sql::lemma_statements_step(all, f, i as int);
        }
        let c = &columns[i];
        assert(all[i as int] == c.deep_view());
        let bg3_type = text::keep_nonempty(&Some(c.bg3_type.clone()));
        add_statement(
            out,
            make_type_row(table, c.name.as_str(), bg3_type, c.sqlite_type.as_str()),
        );
        assert(out.deep_view() =~= start + (sql::statements_of(all.take(i as int), f) + f(
            all[i as int],
        )));
        i += 1;
    }
    assert(all.take(i as int) =~= all);
}

/// The statements that note the types of all columns of a staging database.
#[verifier::loop_isolation(false)]
pub fn populate_staging_column_types(schema: &DiscoveredSchema) -> (r: Vec<Statement>)
    ensures
        r.deep_view() == sql::statements_of(schema.deep_view().tables, staging_type_rows()),
{
    let ghost all = schema.deep_view().tables;
    let ghost f = staging_type_rows();
    let mut r: Vec<Statement> = Vec::new();
    assert(r.deep_view() =~= sql::statements_of(all.take(0), f));
    let mut i: usize = 0;
    while i < schema.tables.entries.len()
        invariant
            i <= schema.tables.entries@.len(),
            all == schema.tables.deep_view(),
            f == staging_type_rows(),
            r.deep_view() == sql::statements_of(all.take(i as int), f),
        decreases schema.tables.entries@.len() - i,
    {
        proof {
            sql::lemma_statements_step(all, f, i as int);
        }
        let entry = &schema.tables.entries[i];
        assert(all[i as int] == (entry.0@, entry.1.deep_view()));
        let table = entry.0.as_str();
        let pk = entry.1.pk_strategy;
        let ghost before = r.deep_view();
        add_statement(&mut r, make_type_row(table, pk.pk_column(), None, pk.pk_sql_type()));
        add_column_rows(&mut r, table, &entry.1.columns);
        add_statement(&mut r, make_type_row(table, "_is_modified", None, "INTEGER"));
        add_statement(&mut r, make_type_row(table, "_is_new", None, "INTEGER"));
        add_statement(&mut r, make_type_row(table, "_is_deleted", None, "INTEGER"));
        assert(r.deep_view() =~= before + f(all[i as int]));
        i += 1;
    }
    assert(all.take(i as int) =~= all);
    r
}

/// The columns that a table of notes may lack, each with its definition.
pub open spec fn authoring_columns() -> Seq<(Seq<char>, Seq<char>)> {
    seq![
        ("_is_new"@, "INTEGER NOT NULL DEFAULT 0"@),
        ("_is_modified"@, "INTEGER NOT NULL DEFAULT 0"@),
        ("_is_deleted"@, "INTEGER NOT NULL DEFAULT 0"@),
        ("_original_hash"@, "TEXT"@),
    ]
}

/// The statements that add those of the first `n` columns that are not there.
pub open spec fn authoring_upgrades(present: Seq<Seq<char>>, n: int) -> Seq<Seq<char>>
    decreases n,
{
    if n <= 0 {
        Seq::empty()
    } else {
        let before = authoring_upgrades(present, n - 1);
        let c = authoring_columns()[n - 1];
        if text::listed(present, c.0) {
            before
        } else {
            before.push("ALTER TABLE _staging_authoring ADD COLUMN \""@ + c.0 + "\" "@ + c.1)
        }
    }
}

/// The statements that add the columns that a table of notes lacks.
#[verifier::loop_isolation(false)]
pub fn ensure_staging_authoring_table(present: &Vec<String>) -> (r: Vec<String>)
    ensures
        r.deep_view() == authoring_upgrades(present.deep_view(), 4),
{
    let columns: Vec<(&'static str, &'static str)> = vec![
        ("_is_new", "INTEGER NOT NULL DEFAULT 0"),
        ("_is_modified", "INTEGER NOT NULL DEFAULT 0"),
        ("_is_deleted", "INTEGER NOT NULL DEFAULT 0"),
        ("_original_hash", "TEXT"),
    ];
    assert(columns.deep_view() =~= authoring_columns());
    let ghost pm = present.deep_view();
    let mut r: Vec<String> = Vec::new();
    assert(r.deep_view() =~= authoring_upgrades(pm, 0));
    let mut i: usize = 0;
    while i < columns.len()
        invariant
            i <= columns@.len(),
            columns@.len() == 4,
            r.deep_view() == authoring_upgrades(pm, i as int),
        decreases columns@.len() - i,
    {
        let c = columns[i];
        assert(columns.deep_view()[i as int] == (c.0@, c.1@));
        if !text::list_has(present, c.0) {
            let mut s = owned("ALTER TABLE _staging_authoring ADD COLUMN \"");
            s.append(c.0);
            s.append("\" ");
            s.append(c.1);
            add_line(&mut r, s);
        }
        i += 1;
    }
    r
}

} // verus!
