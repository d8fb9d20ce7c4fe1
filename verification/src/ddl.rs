//! The statements that create tables, indexes and metadata.

use vstd::prelude::*;
use vstd::string::*;
use crate::order;
use crate::order::sort_ranked;
use crate::schema::{ColumnDef, ColumnModel, DiscoveredSchema, FkConstraint, FkModel, JunctionDef,
    JunctionModel, PkStrategy, SchemaModel, TableModel, TableSchema};
use crate::sql;
use crate::sql::{opt_value, text_value, Statement, StatementModel};
use crate::text;
use crate::text::{copy_list, join, owned, starts_with, text_eq};
use crate::textmap;
use crate::textmap::TextMap;
use crate::types::{SqlModel, SqlValue};

verus! {

/// The tables that a database keeps about itself.
pub const META_TABLES: &'static str = "CREATE TABLE _sources (\n    id   INTEGER PRIMARY KEY,\n    name TEXT NOT NULL UNIQUE\n);\n\nCREATE TABLE _source_files (\n    file_id   INTEGER PRIMARY KEY AUTOINCREMENT,\n    path      TEXT NOT NULL UNIQUE,\n    file_type TEXT NOT NULL,\n    mod_name  TEXT,\n    region_id TEXT,\n    row_count INTEGER DEFAULT 0,\n    file_size INTEGER\n);\n\nCREATE TABLE _column_types (\n    table_name  TEXT NOT NULL,\n    column_name TEXT NOT NULL,\n    bg3_type    TEXT,\n    sqlite_type TEXT NOT NULL,\n    PRIMARY KEY (table_name, column_name)\n) WITHOUT ROWID;\n\nCREATE TABLE _table_meta (\n    table_name    TEXT PRIMARY KEY,\n    source_type   TEXT NOT NULL,\n    region_id     TEXT,\n    node_id       TEXT,\n    parent_tables TEXT,\n    row_count     INTEGER DEFAULT 0\n) WITHOUT ROWID;";

/// The table that holds the schema of a database.
pub const SCHEMA_TABLE: &'static str = "CREATE TABLE IF NOT EXISTS _embedded_schema (\n    key   TEXT PRIMARY KEY,\n    value BLOB NOT NULL\n) WITHOUT ROWID;";

// ---------------------------------------------------------------------------
// Data tables
// ---------------------------------------------------------------------------

/// A data column in a table definition.
pub open spec fn column_line(c: ColumnModel) -> Seq<char> {
    "    \""@ + c.name + "\" "@ + c.sqlite_type
}

/// The data columns in a table definition.
pub open spec fn column_lines(columns: Seq<ColumnModel>) -> Seq<Seq<char>> {
    Seq::new(columns.len(), |i: int| column_line(columns[i]))
}

/// Whether a column is among data columns.
pub open spec fn lists_column(columns: Seq<ColumnModel>, name: Seq<char>) -> bool {
    exists|i: int| 0 <= i < columns.len() && (#[trigger] columns[i]).name == name
}

/// Whether a table has a column: as a data column or as its key.
pub open spec fn has_column(t: TableModel, name: Seq<char>) -> bool {
    lists_column(t.columns, name) || name == t.pk_strategy.key_column()
}

/// Whether a reference becomes a constraint: its target is the key of a table
/// that exists, its column exists, and no key refers to itself.
pub open spec fn enforced(fk: FkModel, t: TableModel, schema: SchemaModel) -> bool {
    match textmap::value_of(schema.tables, fk.target_table) {
        Some(target) => {
            &&& fk.target_column == target.pk_strategy.key_column()
            &&& !(fk.source_column == t.pk_strategy.key_column() && fk.target_table
                == t.table_name)
            &&& has_column(t, fk.source_column)
        },
        None => false,
    }
}

/// The references that become constraints.
pub open spec fn enforced_fks(fks: Seq<FkModel>, t: TableModel, schema: SchemaModel) -> Seq<FkModel>
    decreases fks.len(),
{
    if fks.len() == 0 {
        Seq::empty()
    } else {
        let before = enforced_fks(fks.drop_last(), t, schema);
        if enforced(fks.last(), t, schema) {
            before.push(fks.last())
        } else {
            before
        }
    }
}

/// Every constraint of a table refers to the key of a table that exists.
pub proof fn law_constraints_have_targets(fks: Seq<FkModel>, t: TableModel, schema: SchemaModel)
    ensures
        forall|i: int|
            0 <= i < enforced_fks(fks, t, schema).len() ==> {
                let fk = #[trigger] enforced_fks(fks, t, schema)[i];
                &&& textmap::has_key(schema.tables, fk.target_table)
                &&& fk.target_column == textmap::value_of(
                    schema.tables,
                    fk.target_table,
                )->0.pk_strategy.key_column()
                &&& has_column(t, fk.source_column)
            },
    decreases fks.len(),
{
    if fks.len() > 0 {
        law_constraints_have_targets(fks.drop_last(), t, schema);
    }
}

/// A constraint in a table definition.
pub open spec fn fk_line(fk: FkModel) -> Seq<char> {
    "    FOREIGN KEY(\""@ + fk.source_column + "\") REFERENCES \""@ + fk.target_table + "\"(\""@
        + fk.target_column + "\")"@
}

/// The constraints in a table definition.
pub open spec fn fk_lines(fks: Seq<FkModel>) -> Seq<Seq<char>> {
    Seq::new(fks.len(), |i: int| fk_line(fks[i]))
}

/// The key in a table definition.
pub open spec fn key_line(p: PkStrategy) -> Seq<char> {
    "    \""@ + p.key_column() + "\" "@ + p.key_type() + " PRIMARY KEY"@
}

/// The lines of a table definition.
pub open spec fn table_lines(t: TableModel, schema: SchemaModel) -> Seq<Seq<char>> {
    seq![key_line(t.pk_strategy)] + (if t.has_file_id {
        seq!["    _file_id INTEGER NOT NULL REFERENCES _source_files(file_id)"@]
    } else {
        Seq::empty()
    }) + (if t.pk_strategy == PkStrategy::Rowid {
        Seq::empty()
    } else {
        seq!["    \"_SourceID\" INTEGER REFERENCES _sources(id)"@]
    }) + column_lines(t.columns) + fk_lines(enforced_fks(t.fk_constraints, t, schema))
}

/// A table definition made of lines.
pub open spec fn definition(name: Seq<char>, lines: Seq<Seq<char>>) -> Seq<char> {
    "CREATE TABLE IF NOT EXISTS \""@ + name + "\" (\n"@ + text::joined(lines, ",\n"@) + "\n)"@
}

/// The definition of a data table.
pub open spec fn data_table_ddl(t: TableModel, schema: SchemaModel) -> Seq<char> {
    definition(t.table_name, table_lines(t, schema))
}

/// The table definition made of lines.
pub fn define(name: &str, lines: &Vec<String>) -> (r: String)
    ensures
        r@ == definition(name@, lines.deep_view()),
{
    let body = join(lines, ",\n");
    let mut r = owned("CREATE TABLE IF NOT EXISTS \"");
    r.append(name);
    r.append("\" (\n");
    r.append(body.as_str());
    r.append("\n)");
    r
}

/// Adds a line.
pub fn add_line(lines: &mut Vec<String>, line: String)
    ensures
        final(lines).deep_view() == old(lines).deep_view().push(line@),
{
    let ghost before = lines.deep_view();
    lines.push(line);
    assert(lines.deep_view() =~= before.push(line@));
}

fn make_column_line(c: &ColumnDef) -> (r: String)
    ensures
        r@ == column_line(c.deep_view()),
{
    let mut r = owned("    \"");
    r.append(c.name.as_str());
    r.append("\" ");
    r.append(c.sqlite_type.as_str());
    r
}

/// Adds the lines of data columns.
#[verifier::loop_isolation(false)]
pub fn add_column_lines(lines: &mut Vec<String>, columns: &Vec<ColumnDef>)
    ensures
        final(lines).deep_view() == old(lines).deep_view() + column_lines(columns.deep_view()),
{
    let ghost start = lines.deep_view();
    let ghost all = columns.deep_view();
    let ghost want = column_lines(all);
    assert(start + want.take(0) =~= start);
    let mut i: usize = 0;
    while i < columns.len()
        invariant
            i <= columns@.len(),
            all == columns.deep_view(),
            lines.deep_view() == start + want.take(i as int),
        decreases columns@.len() - i,
    {
        assert(all[i as int] == columns@[i as int].deep_view());
        add_line(lines, make_column_line(&columns[i]));
        assert(want.take(i + 1) =~= want.take(i as int).push(want[i as int]));
        assert(lines.deep_view() =~= start + want.take(i + 1));
        i += 1;
    }
    assert(want.take(i as int) =~= want);
}

/// Whether a column is among data columns.
#[verifier::loop_isolation(false)]
pub fn has_data_column(columns: &Vec<ColumnDef>, name: &str) -> (r: bool)
    ensures
        r == lists_column(columns.deep_view(), name@),
{
    let ghost all = columns.deep_view();
    let mut i: usize = 0;
    while i < columns.len()
        invariant
            i <= columns@.len(),
            all == columns.deep_view(),
            forall|j: int| 0 <= j < i ==> (#[trigger] all[j]).name != name@,
        decreases columns@.len() - i,
    {
        assert(all[i as int] == columns@[i as int].deep_view());
        if text_eq(columns[i].name.as_str(), name) {
            return true;
        }
        i += 1;
    }
    false
}

fn table_has_column(t: &TableSchema, name: &str) -> (r: bool)
    ensures
        r == has_column(t.deep_view(), name@),
{
    text_eq(name, t.pk_strategy.pk_column()) || has_data_column(&t.columns, name)
}

fn is_enforced(fk: &FkConstraint, t: &TableSchema, schema: &DiscoveredSchema) -> (r: bool)
    ensures
        r == enforced(fk.deep_view(), t.deep_view(), schema.deep_view()),
{
    match schema.tables.get(fk.target_table.as_str()) {
        Some(target) => {
            text_eq(fk.target_column.as_str(), target.pk_strategy.pk_column()) && !(text_eq(
                fk.source_column.as_str(),
                t.pk_strategy.pk_column(),
            ) && text_eq(fk.target_table.as_str(), t.table_name.as_str())) && table_has_column(
                t,
                fk.source_column.as_str(),
            )
        },
        None => false,
    }
}

fn make_fk_line(fk: &FkConstraint) -> (r: String)
    ensures
        r@ == fk_line(fk.deep_view()),
{
    let mut r = owned("    FOREIGN KEY(\"");
    r.append(fk.source_column.as_str());
    r.append("\") REFERENCES \"");
    r.append(fk.target_table.as_str());
    r.append("\"(\"");
    r.append(fk.target_column.as_str());
    r.append("\")");
    r
}

#[verifier::loop_isolation(false)]
fn add_fk_lines(lines: &mut Vec<String>, t: &TableSchema, schema: &DiscoveredSchema) -> (count:
    usize)
    ensures
        final(lines).deep_view() == old(lines).deep_view() + fk_lines(
            enforced_fks(t.deep_view().fk_constraints, t.deep_view(), schema.deep_view()),
        ),
        count == enforced_fks(
            t.deep_view().fk_constraints,
            t.deep_view(),
            schema.deep_view(),
        ).len(),
{
    let ghost start = lines.deep_view();
    let ghost model = t.deep_view();
    let ghost all = model.fk_constraints;
    let ghost sm = schema.deep_view();
    assert(start + fk_lines(enforced_fks(all.take(0), model, sm)) =~= start);
    let mut count: usize = 0;
    let mut i: usize = 0;
    while i < t.fk_constraints.len()
        invariant
            i <= t.fk_constraints@.len(),
            count <= i,
            all == t.fk_constraints.deep_view(),
            model == t.deep_view(),
            sm == schema.deep_view(),
            count == enforced_fks(all.take(i as int), model, sm).len(),
            lines.deep_view() == start + fk_lines(enforced_fks(all.take(i as int), model, sm)),
        decreases t.fk_constraints@.len() - i,
    {
        assert(all.take(i + 1).drop_last() =~= all.take(i as int));
        assert(all[i as int] == t.fk_constraints@[i as int].deep_view());
        if is_enforced(&t.fk_constraints[i], t, schema) {
            add_line(lines, make_fk_line(&t.fk_constraints[i]));
            count += 1;
            assert(lines.deep_view() =~= start + fk_lines(
                enforced_fks(all.take(i + 1), model, sm),
            ));
        }
        i += 1;
    }
    assert(all.take(i as int) =~= all);
    count
}

/// The key in a table definition.
pub fn make_key_line(p: PkStrategy) -> (r: String)
    ensures
        r@ == key_line(p),
{
    let mut r = owned("    \"");
    r.append(p.pk_column());
    r.append("\" ");
    r.append(p.pk_sql_type());
    r.append(" PRIMARY KEY");
    r
}

/// The definition of a data table, and the number of its constraints.
pub fn create_data_table(t: &TableSchema, schema: &DiscoveredSchema) -> (r: (String, usize))
    ensures
        r.0@ == data_table_ddl(t.deep_view(), schema.deep_view()),
        r.1 == enforced_fks(
            t.deep_view().fk_constraints,
            t.deep_view(),
            schema.deep_view(),
        ).len(),
{
    let mut lines: Vec<String> = Vec::new();
    add_line(&mut lines, make_key_line(t.pk_strategy));
    if t.has_file_id {
        add_line(
            &mut lines,
            owned("    _file_id INTEGER NOT NULL REFERENCES _source_files(file_id)"),
        );
    }
    if t.pk_strategy != PkStrategy::Rowid {
        add_line(&mut lines, owned("    \"_SourceID\" INTEGER REFERENCES _sources(id)"));
    }
    add_column_lines(&mut lines, &t.columns);
    let count: usize = add_fk_lines(&mut lines, t, schema);
    assert(lines.deep_view() =~= table_lines(t.deep_view(), schema.deep_view()));
    (define(t.table_name.as_str(), &lines), count)
}

/// The lines of the definition of a table that holds several mods: its key is
/// made of the key and the source, and nothing is enforced.
pub open spec fn mods_lines(t: TableModel) -> Seq<Seq<char>> {
    let keyed = t.pk_strategy != PkStrategy::Rowid;
    seq![
        if keyed {
            "    \""@ + t.pk_strategy.key_column() + "\" "@ + t.pk_strategy.key_type()
                + " NOT NULL"@
        } else {
            "    \"_row_id\" INTEGER PRIMARY KEY"@
        },
        "    \"_SourceID\" INTEGER NOT NULL"@,
    ] + (if t.has_file_id {
        seq!["    _file_id INTEGER NOT NULL"@]
    } else {
        Seq::empty()
    }) + column_lines(t.columns) + (if keyed {
        seq!["    PRIMARY KEY (\""@ + t.pk_strategy.key_column() + "\", \"_SourceID\")"@]
    } else {
        Seq::empty()
    })
}

/// The definition of a table that holds several mods.
pub fn create_mods_data_table(t: &TableSchema) -> (r: String)
    ensures
        r@ == definition(t.table_name@, mods_lines(t.deep_view())),
{
    let keyed = t.pk_strategy != PkStrategy::Rowid;
    let mut lines: Vec<String> = Vec::new();
    if keyed {
        let mut line = owned("    \"");
        line.append(t.pk_strategy.pk_column());
        line.append("\" ");
        line.append(t.pk_strategy.pk_sql_type());
        line.append(" NOT NULL");
        add_line(&mut lines, line);
    } else {
        add_line(&mut lines, owned("    \"_row_id\" INTEGER PRIMARY KEY"));
    }
    add_line(&mut lines, owned("    \"_SourceID\" INTEGER NOT NULL"));
    if t.has_file_id {
        add_line(&mut lines, owned("    _file_id INTEGER NOT NULL"));
    }
    add_column_lines(&mut lines, &t.columns);
    if keyed {
        let mut line = owned("    PRIMARY KEY (\"");
        line.append(t.pk_strategy.pk_column());
        line.append("\", \"_SourceID\")");
        add_line(&mut lines, line);
    }
    assert(lines.deep_view() =~= mods_lines(t.deep_view()));
    define(t.table_name.as_str(), &lines)
}

// ---------------------------------------------------------------------------
// Junction tables
// ---------------------------------------------------------------------------

/// The definition of a junction table.
pub open spec fn junction_ddl(j: JunctionModel) -> Seq<char> {
    "CREATE TABLE IF NOT EXISTS \""@ + j.table_name + "\" (\n    parent_id "@ + j.parent_pk_type
        + " NOT NULL REFERENCES \""@ + j.parent_table + "\"(\""@ + j.parent_pk_column
        + "\"),\n    child_id "@ + j.child_pk_type + " NOT NULL REFERENCES \""@ + j.child_table
        + "\"(\""@ + j.child_pk_column
        + "\"),\n    PRIMARY KEY (parent_id, child_id)\n) WITHOUT ROWID"@
}

/// The definition of a junction table.
pub fn create_junction_table(j: &JunctionDef) -> (r: String)
    ensures
        r@ == junction_ddl(j.deep_view()),
{
    let mut r = owned("CREATE TABLE IF NOT EXISTS \"");
    r.append(j.table_name.as_str());
    r.append("\" (\n    parent_id ");
    r.append(j.parent_pk_type.as_str());
    r.append(" NOT NULL REFERENCES \"");
    r.append(j.parent_table.as_str());
    r.append("\"(\"");
    r.append(j.parent_pk_column.as_str());
    r.append("\"),\n    child_id ");
    r.append(j.child_pk_type.as_str());
    r.append(" NOT NULL REFERENCES \"");
    r.append(j.child_table.as_str());
    r.append("\"(\"");
    r.append(j.child_pk_column.as_str());
    r.append("\"),\n    PRIMARY KEY (parent_id, child_id)\n) WITHOUT ROWID");
    r
}

/// The definition of a junction table that holds several mods.
pub open spec fn mods_junction_ddl(j: JunctionModel) -> Seq<char> {
    "CREATE TABLE IF NOT EXISTS \""@ + j.table_name + "\" (\n    parent_id "@ + j.parent_pk_type
        + " NOT NULL,\n    child_id "@ + j.child_pk_type
        + " NOT NULL,\n    \"_SourceID\" INTEGER NOT NULL,\n    PRIMARY KEY (parent_id, child_id, \"_SourceID\")\n) WITHOUT ROWID"@
}

/// The definition of a junction table that holds several mods.
pub fn create_mods_junction_table(j: &JunctionDef) -> (r: String)
    ensures
        r@ == mods_junction_ddl(j.deep_view()),
{
    let mut r = owned("CREATE TABLE IF NOT EXISTS \"");
    r.append(j.table_name.as_str());
    r.append("\" (\n    parent_id ");
    r.append(j.parent_pk_type.as_str());
    r.append(" NOT NULL,\n    child_id ");
    r.append(j.child_pk_type.as_str());
    r.append(
        " NOT NULL,\n    \"_SourceID\" INTEGER NOT NULL,\n    PRIMARY KEY (parent_id, child_id, \"_SourceID\")\n) WITHOUT ROWID",
    );
    r
}

// ---------------------------------------------------------------------------
// Metadata
// ---------------------------------------------------------------------------

/// The statement that describes a table.
pub open spec fn meta_row(
    what: Seq<char>,
    name: Seq<char>,
    source_type: Seq<char>,
    region_id: Option<Seq<char>>,
    node_id: Option<Seq<char>>,
    parents: Option<Seq<char>>,
    row_count: i64,
) -> StatementModel {
    StatementModel {
        what: sql::naming(what, name),
        sql: "INSERT OR REPLACE INTO _table_meta (table_name, source_type, region_id, node_id, parent_tables, row_count) VALUES (?1, ?2, ?3, ?4, ?5, ?6)"@,
        params: seq![
            SqlModel::Text(name),
            SqlModel::Text(source_type),
            sql::optional_value(region_id),
            sql::optional_value(node_id),
            sql::optional_value(parents),
            SqlModel::Integer(row_count as int),
        ],
    }
}

fn make_meta_row(
    what: &str,
    name: &str,
    source_type: &str,
    region_id: &Option<String>,
    node_id: &Option<String>,
    parents: &Option<String>,
    row_count: i64,
) -> (r: Statement)
    ensures
        r.deep_view() == meta_row(
            what@,
            name@,
            source_type@,
            region_id.deep_view(),
            node_id.deep_view(),
            parents.deep_view(),
            row_count,
        ),
{
    let params: Vec<SqlValue> = vec![
        text_value(name),
        text_value(source_type),
        opt_value(region_id),
        opt_value(node_id),
        opt_value(parents),
        SqlValue::Integer(row_count),
    ];
    assert(params.deep_view() =~= meta_row(
        what@,
        name@,
        source_type@,
        region_id.deep_view(),
        node_id.deep_view(),
        parents.deep_view(),
        row_count,
    ).params);
    Statement {
        what: sql::name_in(what, name),
        sql: owned(
            "INSERT OR REPLACE INTO _table_meta (table_name, source_type, region_id, node_id, parent_tables, row_count) VALUES (?1, ?2, ?3, ?4, ?5, ?6)",
        ),
        params,
    }
}

/// The parents of a table in order, separated by commas.
pub open spec fn parent_list(parents: Seq<Seq<char>>) -> Option<Seq<char>> {
    if parents.len() == 0 {
        None
    } else {
        Some(text::joined(order::stable_sort(parents, order::rank::<String>()), ","@))
    }
}

/// The statement that describes a data table with `row_count` rows.
pub fn table_meta(name: &str, t: &TableSchema, row_count: i64) -> (r: Statement)
    ensures
        r.deep_view() == meta_row(
            "Insert meta for"@,
            name@,
            t.source_type@,
            t.region_id.deep_view(),
            t.node_id.deep_view(),
            parent_list(t.parent_tables.deep_view()),
            row_count,
        ),
{
    assert(t.parent_tables.deep_view().len() == t.parent_tables@.len());
    let parents = if t.parent_tables.len() == 0 {
        None
    } else {
        let sorted = sort_ranked(copy_list(&t.parent_tables));
        Some(join(&sorted, ","))
    };
    make_meta_row(
        "Insert meta for",
        name,
        t.source_type.as_str(),
        &t.region_id,
        &t.node_id,
        &parents,
        row_count,
    )
}

/// The statement that describes a junction table with `row_count` rows.
pub fn junction_meta(j: &JunctionDef, row_count: i64) -> (r: Statement)
    ensures
        r.deep_view() == meta_row(
            "Insert meta for junction"@,
            j.table_name@,
            "junction"@,
            None,
            None,
            Some(j.parent_table@ + ","@ + j.child_table@),
            row_count,
        ),
{
    let mut parents = owned(j.parent_table.as_str());
    parents.append(",");
    parents.append(j.child_table.as_str());
    make_meta_row(
        "Insert meta for junction",
        j.table_name.as_str(),
        "junction",
        &None,
        &None,
        &Some(parents),
        row_count,
    )
}

/// The number of rows of a table: the noted one where any are noted, and the
/// counted one elsewhere. A table without a number has none.
pub open spec fn meta_rows(
    noted: Seq<(Seq<char>, u64)>,
    counted: Seq<(Seq<char>, u64)>,
    name: Seq<char>,
) -> i64 {
    let counts = if noted.len() > 0 {
        noted
    } else {
        counted
    };
    match textmap::value_of(counts, name) {
        Some(n) => row_number(n),
        None => 0,
    }
}

/// A number of rows as the database holds it, as far as it can.
pub open spec fn row_number(n: u64) -> i64 {
    if n <= i64::MAX {
        n as i64
    } else {
        i64::MAX
    }
}

fn get_rows(counts: &TextMap<u64>, name: &str) -> (r: i64)
    ensures
        r == (match textmap::value_of(counts.deep_view(), name@) {
            Some(n) => row_number(n),
            None => 0,
        }),
{
    match counts.get(name) {
        Some(n) => {
            let n: u64 = *n;
            if n <= 0x7fff_ffff_ffff_ffff {
                n as i64
            } else {
                i64::MAX
            }
        },
        None => 0,
    }
}

/// The statements that describe all data tables, and then all junction tables,
/// whose rows are always counted.
pub open spec fn meta_statements(
    schema: SchemaModel,
    noted: Seq<(Seq<char>, u64)>,
    counted: Seq<(Seq<char>, u64)>,
) -> Seq<StatementModel> {
    Seq::new(
        schema.tables.len(),
        |i: int|
            {
                let (name, t) = schema.tables[i];
                meta_row(
                    "Insert meta for"@,
                    name,
                    t.source_type,
                    t.region_id,
                    t.node_id,
                    parent_list(t.parent_tables),
                    meta_rows(noted, counted, name),
                )
            },
    ) + Seq::new(
        schema.junction_tables.len(),
        |i: int|
            {
                let j = schema.junction_tables[i];
                meta_row(
                    "Insert meta for junction"@,
                    j.table_name,
                    "junction"@,
                    None,
                    None,
                    Some(j.parent_table + ","@ + j.child_table),
                    meta_rows(Seq::empty(), counted, j.table_name),
                )
            },
    )
}

/// The statements that describe all tables. The numbers of rows were noted
/// while the tables were filled; where none were, they are counted.
#[verifier::loop_isolation(false)]
pub fn populate_table_meta(
    schema: &DiscoveredSchema,
    noted: &TextMap<u64>,
    counted: &TextMap<u64>,
) -> (r: Vec<Statement>)
    ensures
        r.deep_view() == meta_statements(
            schema.deep_view(),
            noted.deep_view(),
            counted.deep_view(),
        ),
{
    let ghost sm = schema.deep_view();
    let ghost want = meta_statements(sm, noted.deep_view(), counted.deep_view());
    let ghost tables = sm.tables.len() as int;
    let mut r: Vec<Statement> = Vec::new();
    let use_noted = noted.entries.len() > 0;
    assert(noted.deep_view().len() == noted.entries@.len());
    assert(r.deep_view() =~= want.take(0));
    let mut i: usize = 0;
    while i < schema.tables.entries.len()
        invariant
            i <= schema.tables.entries@.len(),
            r.deep_view() == want.take(i as int),
        decreases schema.tables.entries@.len() - i,
    {
        let entry = &schema.tables.entries[i];
        assert(sm.tables[i as int] == (entry.0@, entry.1.deep_view()));
        let name = entry.0.as_str();
        let rows: i64 = if use_noted {
            get_rows(noted, name)
        } else {
            get_rows(counted, name)
        };
        let ghost before = r.deep_view();
        let st = table_meta(name, &entry.1, rows);
        assert(st.deep_view() == want[i as int]);
        r.push(st);
        assert(r.deep_view() =~= before.push(st.deep_view()));
        assert(want.take(i + 1) =~= want.take(i as int).push(want[i as int]));
        i += 1;
    }
    let mut k: usize = 0;
    while k < schema.junction_tables.len()
        invariant
            k <= schema.junction_tables@.len(),
            r.deep_view() == want.take(tables + k),
        decreases schema.junction_tables@.len() - k,
    {
        let j = &schema.junction_tables[k];
        assert(sm.junction_tables[k as int] == j.deep_view());
        let rows: i64 = get_rows(counted, j.table_name.as_str());
        let ghost before = r.deep_view();
        let st = junction_meta(j, rows);
        assert(st.deep_view() == want[tables + k]);
        r.push(st);
        assert(r.deep_view() =~= before.push(st.deep_view()));
        assert(want.take(tables + k + 1) =~= want.take(tables + k).push(want[tables + k]));
        k += 1;
    }
    assert(want.take(tables + k) =~= want);
    r
}

/// The indexes of a table.
pub open spec fn table_indexes(name: Seq<char>, t: TableModel) -> Seq<Seq<char>> {
    (if t.has_file_id {
        seq![
            "CREATE INDEX IF NOT EXISTS \"idx_"@ + name + "__fid\" ON \""@ + name
                + "\"(\"_file_id\")"@,
        ]
    } else {
        Seq::empty()
    }) + (if "stats__"@.is_prefix_of(name) && lists_column(t.columns, "_entry_name"@) {
        seq![
            "CREATE INDEX IF NOT EXISTS \"idx_"@ + name + "__ent\" ON \""@ + name
                + "\"(\"_entry_name\")"@,
        ]
    } else {
        Seq::empty()
    })
}

/// The indexes of several tables.
pub open spec fn indexes_of(tables: Seq<(Seq<char>, TableModel)>) -> Seq<Seq<char>>
    decreases tables.len(),
{
    if tables.len() == 0 {
        Seq::empty()
    } else {
        indexes_of(tables.drop_last()) + table_indexes(tables.last().0, tables.last().1)
    }
}

fn make_index(name: &str, tail: &str, column: &str) -> (r: String)
    ensures
        r@ == "CREATE INDEX IF NOT EXISTS \"idx_"@ + name@ + tail@ + name@ + column@,
{
    let mut r = owned("CREATE INDEX IF NOT EXISTS \"idx_");
    r.append(name);
    r.append(tail);
    r.append(name);
    r.append(column);
    r
}

/// The statements that create indexes.
#[verifier::loop_isolation(false)]
pub fn build_indexes(schema: &DiscoveredSchema) -> (r: Vec<String>)
    ensures
        r.deep_view() == indexes_of(schema.deep_view().tables),
{
    let ghost all = schema.deep_view().tables;
    let mut r: Vec<String> = Vec::new();
    assert(r.deep_view() =~= indexes_of(all.take(0)));
    let mut i: usize = 0;
    while i < schema.tables.entries.len()
        invariant
            i <= schema.tables.entries@.len(),
            all == schema.tables.deep_view(),
            r.deep_view() == indexes_of(all.take(i as int)),
        decreases schema.tables.entries@.len() - i,
    {
        assert(all.take(i + 1).drop_last() =~= all.take(i as int));
        let entry = &schema.tables.entries[i];
        assert(all[i as int] == (entry.0@, entry.1.deep_view()));
        let ghost before = r.deep_view();
        let name = entry.0.as_str();
        if entry.1.has_file_id {
            add_line(&mut r, make_index(name, "__fid\" ON \"", "\"(\"_file_id\")"));
        }
        if starts_with(name, "stats__") && has_data_column(&entry.1.columns, "_entry_name") {
            add_line(&mut r, make_index(name, "__ent\" ON \"", "\"(\"_entry_name\")"));
        }
        assert(r.deep_view() =~= before + table_indexes(entry.0@, entry.1.deep_view()));
        i += 1;
    }
    assert(all.take(i as int) =~= all);
    r
}

/// The statement that notes the types of a column.
pub open spec fn column_type_row(table: Seq<char>) -> spec_fn(ColumnModel) -> Seq<StatementModel> {
    |c: ColumnModel|
        seq![
            StatementModel {
                what: "Insert column type"@,
                sql: "INSERT OR IGNORE INTO _column_types (table_name, column_name, bg3_type, sqlite_type) VALUES (?1, ?2, ?3, ?4)"@,
                params: seq![
                    SqlModel::Text(table),
                    SqlModel::Text(c.name),
                    SqlModel::Text(c.bg3_type),
                    SqlModel::Text(c.sqlite_type),
                ],
            },
        ]
}

/// The statements that note the types of the columns of a table.
pub open spec fn table_type_rows() -> spec_fn((Seq<char>, TableModel)) -> Seq<StatementModel> {
    |t: (Seq<char>, TableModel)| sql::statements_of(t.1.columns, column_type_row(t.0))
}

#[verifier::loop_isolation(false)]
fn add_type_rows(out: &mut Vec<Statement>, table: &str, columns: &Vec<ColumnDef>)
    ensures
        final(out).deep_view() == old(out).deep_view() + sql::statements_of(
            columns.deep_view(),
            column_type_row(table@),
        ),
{
    let ghost start = out.deep_view();
    let ghost all = columns.deep_view();
    let ghost f = column_type_row(table@);
    assert(start + sql::statements_of(all.take(0), f) =~= start);
    let mut i: usize = 0;
    while i < columns.len()
        invariant
            i <= columns@.len(),
            all == columns.deep_view(),
            f == column_type_row(table@),
            out.deep_view() == start + sql::statements_of(all.take(i as int), f),
        decreases columns@.len() - i,
    {
        proof {
            sql::lemma_statements_step(all, f, i as int);
        }
        let c = &columns[i];
        assert(all[i as int] == c.deep_view());
        let params: Vec<SqlValue> = vec![
            text_value(table),
            text_value(c.name.as_str()),
            text_value(c.bg3_type.as_str()),
            text_value(c.sqlite_type.as_str()),
        ];
        let st = Statement {
            what: owned("Insert column type"),
            sql: owned(
                "INSERT OR IGNORE INTO _column_types (table_name, column_name, bg3_type, sqlite_type) VALUES (?1, ?2, ?3, ?4)",
            ),
            params,
        };
        assert(st.params.deep_view() =~= f(all[i as int])[0].params);
        let ghost before = out.deep_view();
        out.push(st);
        assert(out.deep_view() =~= before.push(st.deep_view()));
        assert(out.deep_view() =~= start + (sql::statements_of(all.take(i as int), f) + f(
            all[i as int],
        )));
        i += 1;
    }
    assert(all.take(i as int) =~= all);
}

/// The statements that note the types of all columns.
#[verifier::loop_isolation(false)]
pub fn populate_column_types(schema: &DiscoveredSchema) -> (r: Vec<Statement>)
    ensures
        r.deep_view() == sql::statements_of(schema.deep_view().tables, table_type_rows()),
{
    let ghost all = schema.deep_view().tables;
    let ghost f = table_type_rows();
    let mut r: Vec<Statement> = Vec::new();
    assert(r.deep_view() =~= sql::statements_of(all.take(0), f));
    let mut i: usize = 0;
    while i < schema.tables.entries.len()
        invariant
            i <= schema.tables.entries@.len(),
            all == schema.tables.deep_view(),
            f == table_type_rows(),
            r.deep_view() == sql::statements_of(all.take(i as int), f),
        decreases schema.tables.entries@.len() - i,
    {
        proof {
            sql::lemma_statements_step(all, f, i as int);
        }
        let entry = &schema.tables.entries[i];
        assert(all[i as int] == (entry.0@, entry.1.deep_view()));
        add_type_rows(&mut r, entry.0.as_str(), &entry.1.columns);
        i += 1;
    }
    assert(all.take(i as int) =~= all);
    r
}

} // verus!
