//! The statements that bring the content of files into the database.

use vstd::prelude::*;
use crate::discovery::glued;
use crate::loca::{LocaModel, ParsedLocaEntry};
use crate::row_fill;
use crate::row_fill::{make_key, store_version};
use crate::rows;
use crate::rows::{is_reference, list_sources, store_reference};
use crate::schema::{ColumnDef, ColumnModel, DiscoveredSchema, PkStrategy, SchemaModel, TableModel,
    TableSchema};
use crate::sql;
use crate::sql::{insert_statement, opt_value, text_value, Statement, StatementModel};
use crate::stats_parse;
use crate::stats_parse::{read_entries, ParsedStatsEntry, StatsModel};
use crate::stats_text;
use crate::stats_text::is_stats_loca_column;
use crate::text;
use crate::text::{eq_ignore_case, list_has, owned, split_once, text_eq};
use crate::textmap;
use crate::types;
use crate::types::{coerce_value, SqlModel, SqlValue};

verus! {

// ---------------------------------------------------------------------------
// Rows without a plan
// ---------------------------------------------------------------------------

/// Columns with their values.
pub struct Pairs {
    pub columns: Seq<Seq<char>>,
    pub values: Seq<SqlModel>,
}

/// Columns and values with one more.
pub open spec fn paired(p: Pairs, column: Seq<char>, value: SqlModel) -> Pairs {
    Pairs { columns: p.columns.push(column), values: p.values.push(value) }
}

fn pair(columns: &mut Vec<String>, values: &mut Vec<SqlValue>, column: String, value: SqlValue)
    ensures
        (Pairs {
            columns: final(columns).deep_view(),
            values: final(values).deep_view(),
        }) == paired(
            Pairs { columns: old(columns).deep_view(), values: old(values).deep_view() },
            column@,
            value.deep_view(),
        ),
{
    let ghost c = columns.deep_view();
    let ghost v = values.deep_view();
    columns.push(column);
    values.push(value);
    assert(columns.deep_view() =~= c.push(column@));
    assert(values.deep_view() =~= v.push(value.deep_view()));
}

/// The columns and values of an entry with a field more.
pub open spec fn paired_field(
    p: Pairs,
    sources: Seq<Seq<char>>,
    field: (Seq<char>, Seq<char>),
) -> Pairs {
    if stats_text::loca_column(field.0) {
        match text::halves(field.1, ';') {
            Some(h) => paired(
                paired(p, field.0, rows::reference_value(h.0)),
                field.0 + "_version"@,
                row_fill::version_value(h.1),
            ),
            None => paired(p, field.0, rows::reference_value(field.1)),
        }
    } else if text::listed(sources, field.0) {
        paired(p, field.0, rows::reference_value(field.1))
    } else {
        paired(p, field.0, SqlModel::Text(field.1))
    }
}

/// The columns and values of an entry with several fields more.
pub open spec fn paired_fields(
    p: Pairs,
    sources: Seq<Seq<char>>,
    fields: Seq<(Seq<char>, Seq<char>)>,
) -> Pairs
    decreases fields.len(),
{
    if fields.len() == 0 {
        p
    } else {
        paired_field(paired_fields(p, sources, fields.drop_last()), sources, fields.last())
    }
}

/// The columns of a table that refer to other tables.
pub open spec fn table_sources(schema: SchemaModel, table: Seq<char>) -> Seq<Seq<char>> {
    match textmap::value_of(schema.tables, table) {
        Some(t) => rows::sources_of(t.fk_constraints),
        None => Seq::empty(),
    }
}

pub fn sources_in(schema: &DiscoveredSchema, table: &str) -> (r: Vec<String>)
    ensures
        r.deep_view() == table_sources(schema.deep_view(), table@),
{
    match schema.tables.get(table) {
        Some(t) => list_sources(&t.fk_constraints),
        None => {
            let none: Vec<String> = Vec::new();
            assert(none.deep_view() =~= Seq::<Seq<char>>::empty());
            none
        },
    }
}

/// The columns and values of an entry.
pub open spec fn entry_pairs(e: StatsModel, file_id: i64, schema: SchemaModel) -> Pairs {
    paired_fields(
        Pairs {
            columns: seq!["_entry_name"@, "_file_id"@, "_type"@, "_using"@],
            values: seq![
                SqlModel::Text(e.entry_name),
                SqlModel::Integer(file_id as int),
                SqlModel::Text(e.entry_type),
                match e.entry_using {
                    Some(u) => rows::reference_value(u),
                    None => SqlModel::Null,
                },
            ],
        },
        table_sources(schema, e.table_name),
        e.data,
    )
}

/// The statement that inserts an entry.
pub open spec fn entry_statement(e: StatsModel, file_id: i64, schema: SchemaModel) -> StatementModel {
    let p = entry_pairs(e, file_id, schema);
    StatementModel {
        what: "Insert stats"@,
        sql: sql::insert_sql(e.table_name, p.columns),
        params: p.values,
    }
}

fn pair_field(
    columns: &mut Vec<String>,
    values: &mut Vec<SqlValue>,
    sources: &Vec<String>,
    field: &(String, String),
)
    ensures
        (Pairs {
            columns: final(columns).deep_view(),
            values: final(values).deep_view(),
        }) == paired_field(
            Pairs { columns: old(columns).deep_view(), values: old(values).deep_view() },
            sources.deep_view(),
            field.deep_view(),
        ),
{
    let name = field.0.as_str();
    let value = field.1.as_str();
    if is_stats_loca_column(name) {
        match split_once(value, ';') {
            Some(h) => {
                pair(columns, values, owned(name), store_reference(h.0.as_str()));
                pair(columns, values, glued(name, "_version"), store_version(h.1.as_str()));
            },
            None => {
                pair(columns, values, owned(name), store_reference(value));
            },
        }
    } else if list_has(sources, name) {
        pair(columns, values, owned(name), store_reference(value));
    } else {
        pair(columns, values, owned(name), text_value(value));
    }
}

/// The statement that inserts an entry.
#[verifier::loop_isolation(false)]
pub fn insert_entry(entry: &ParsedStatsEntry, file_id: i64, schema: &DiscoveredSchema) -> (r:
    Statement)
    ensures
        r.deep_view() == entry_statement(entry.deep_view(), file_id, schema.deep_view()),
{
    let sources = sources_in(schema, entry.table_name.as_str());
    let mut columns: Vec<String> = vec![
        owned("_entry_name"),
        owned("_file_id"),
        owned("_type"),
        owned("_using"),
    ];
    let using = match &entry.entry_using {
        Some(u) => store_reference(u.as_str()),
        None => SqlValue::Null,
    };
    let mut values: Vec<SqlValue> = vec![
        text_value(entry.entry_name.as_str()),
        SqlValue::Integer(file_id),
        text_value(entry.entry_type.as_str()),
        using,
    ];
    let ghost all = entry.data.deep_view();
    let ghost start = Pairs { columns: columns.deep_view(), values: values.deep_view() };
    proof {
        let e = entry.deep_view();
        assert(start.columns =~= seq!["_entry_name"@, "_file_id"@, "_type"@, "_using"@]);
        assert(start.values =~= seq![
            SqlModel::Text(e.entry_name),
            SqlModel::Integer(file_id as int),
            SqlModel::Text(e.entry_type),
            match e.entry_using {
                Some(u) => rows::reference_value(u),
                None => SqlModel::Null,
            },
        ]);
    }
    let mut i: usize = 0;
    while i < entry.data.len()
        invariant
            i <= entry.data@.len(),
            all == entry.data.deep_view(),
            (Pairs { columns: columns.deep_view(), values: values.deep_view() }) == paired_fields(
                start,
                sources.deep_view(),
                all.take(i as int),
            ),
        decreases entry.data@.len() - i,
    {
        assert(all.take(i + 1).drop_last() =~= all.take(i as int));
        assert(all[i as int] == entry.data@[i as int].deep_view());
        pair_field(&mut columns, &mut values, &sources, &entry.data[i]);
        i += 1;
    }
    assert(all.take(i as int) =~= all);
    let sql = insert_statement(entry.table_name.as_str(), &columns);
    Statement { what: owned("Insert stats"), sql, params: values }
}

/// The statement that keeps a text as it stands.
pub open spec fn raw_statement(content: Seq<char>, file_id: i64) -> StatementModel {
    StatementModel {
        what: "Insert raw txt"@,
        sql: "INSERT INTO \"txt__raw\" (_file_id, content) VALUES (?1, ?2)"@,
        params: seq![SqlModel::Integer(file_id as int), SqlModel::Text(content)],
    }
}

pub fn insert_raw(content: &str, file_id: i64) -> (r: Statement)
    ensures
        r.deep_view() == raw_statement(content@, file_id),
{
    let params: Vec<SqlValue> = vec![SqlValue::Integer(file_id), text_value(content)];
    assert(params.deep_view() =~= raw_statement(content@, file_id).params);
    Statement {
        what: owned("Insert raw txt"),
        sql: owned("INSERT INTO \"txt__raw\" (_file_id, content) VALUES (?1, ?2)"),
        params,
    }
}

/// The statements for a file, each for one row, and the region that it is
/// filed under.
#[derive(Debug)]
pub struct FileStatements {
    pub statements: Vec<Statement>,
    pub region_id: Option<String>,
}

/// What the statements for a file say.
pub struct FileStatementsModel {
    pub statements: Seq<StatementModel>,
    pub region_id: Option<Seq<char>>,
}

impl DeepView for FileStatements {
    type V = FileStatementsModel;

    open spec fn deep_view(&self) -> FileStatementsModel {
        FileStatementsModel {
            statements: self.statements.deep_view(),
            region_id: self.region_id.deep_view(),
        }
    }
}

/// The statements for the entries of a stats text. A text without entries is
/// kept as it stands, if there is a table for that.
pub open spec fn stats_statements(content: Seq<char>, file_id: i64, schema: SchemaModel) -> FileStatementsModel {
    let c = stats_parse::usual_content(content, schema, true);
    let rows = Seq::new(
        c.entries.len(),
        |i: int| entry_statement(c.entries[i], file_id, schema),
    );
    FileStatementsModel {
        statements: if c.raw_content is Some && textmap::has_key(schema.tables, "txt__raw"@) {
            rows.push(raw_statement(content, file_id))
        } else {
            rows
        },
        region_id: c.last_type,
    }
}

/// The statements for the entries of a stats text.
#[verifier::loop_isolation(false)]
pub fn process_stats(content: &str, file_id: i64, schema: &DiscoveredSchema) -> (r: FileStatements)
    ensures
        r.deep_view() == stats_statements(content@, file_id, schema.deep_view()),
{
    let c = read_entries(content, schema, true);
    let ghost entries = c.deep_view().entries;
    let ghost want = Seq::new(
        entries.len(),
        |i: int| entry_statement(entries[i], file_id, schema.deep_view()),
    );
    let mut statements: Vec<Statement> = Vec::new();
    assert(statements.deep_view() =~= want.take(0));
    let mut i: usize = 0;
    while i < c.entries.len()
        invariant
            i <= c.entries@.len(),
            entries == c.entries.deep_view(),
            statements.deep_view() == want.take(i as int),
        decreases c.entries@.len() - i,
    {
        assert(entries[i as int] == c.entries@[i as int].deep_view());
        let ghost before = statements.deep_view();
        let st = insert_entry(&c.entries[i], file_id, schema);
        statements.push(st);
        assert(statements.deep_view() =~= before.push(st.deep_view()));
        assert(want.take(i + 1) =~= want.take(i as int).push(want[i as int]));
        i += 1;
    }
    assert(want.take(i as int) =~= want);
    let ghost before = statements.deep_view();
    if c.raw_content.is_some() && schema.tables.contains_key("txt__raw") {
        let st = insert_raw(content, file_id);
        statements.push(st);
        assert(statements.deep_view() =~= before.push(st.deep_view()));
    }
    FileStatements { statements, region_id: c.last_type }
}

/// The first column of a table by its name in any case.
pub open spec fn column_named(columns: Seq<ColumnModel>, name: Seq<char>) -> Option<Seq<char>>
    decreases columns.len(),
{
    if columns.len() == 0 {
        None
    } else if text::ascii_lowered(columns[0].name) == text::ascii_lowered(name) {
        Some(columns[0].name)
    } else {
        column_named(columns.drop_first(), name)
    }
}

#[verifier::loop_isolation(false)]
fn find_column(columns: &Vec<ColumnDef>, name: &str) -> (r: Option<String>)
    ensures
        r.deep_view() == column_named(columns.deep_view(), name@),
{
    let ghost all = columns.deep_view();
    assert(all.skip(0) =~= all);
    let mut i: usize = 0;
    while i < columns.len()
        invariant
            i <= columns@.len(),
            all == columns.deep_view(),
            column_named(all.skip(i as int), name@) == column_named(all, name@),
        decreases columns@.len() - i,
    {
        let ghost tail = all.skip(i as int);
        assert(tail[0] == columns@[i as int].deep_view());
        if eq_ignore_case(columns[i].name.as_str(), name) {
            return Some(columns[i].name.clone());
        }
        assert(tail.drop_first() =~= all.skip(i + 1));
        i += 1;
    }
    assert(all.skip(i as int) =~= Seq::<ColumnModel>::empty());
    None
}

/// The value of the key column among values, by its name in any case.
pub open spec fn found_key(
    attrs: Seq<(Seq<char>, Seq<char>, Seq<char>)>,
    column: Seq<char>,
) -> Option<Seq<char>>
    decreases attrs.len(),
{
    if attrs.len() == 0 {
        None
    } else if text::ascii_lowered(attrs[0].0) == text::ascii_lowered(column) {
        Some(attrs[0].2)
    } else {
        found_key(attrs.drop_first(), column)
    }
}

#[verifier::loop_isolation(false)]
fn find_key(attrs: &Vec<(String, String, String)>, column: &str) -> (r: Option<String>)
    ensures
        r.deep_view() == found_key(attrs.deep_view(), column@),
{
    let ghost all = attrs.deep_view();
    assert(all.skip(0) =~= all);
    let mut i: usize = 0;
    while i < attrs.len()
        invariant
            i <= attrs@.len(),
            all == attrs.deep_view(),
            found_key(all.skip(i as int), column@) == found_key(all, column@),
        decreases attrs@.len() - i,
    {
        let ghost tail = all.skip(i as int);
        assert(tail[0] == attrs@[i as int].deep_view());
        if eq_ignore_case(attrs[i].0.as_str(), column) {
            return Some(attrs[i].2.clone());
        }
        assert(tail.drop_first() =~= all.skip(i + 1));
        i += 1;
    }
    assert(all.skip(i as int) =~= Seq::<(Seq<char>, Seq<char>, Seq<char>)>::empty());
    None
}

/// The columns and values of a node with an attribute more. The key is left out,
/// and so is what the table has no column for.
pub open spec fn paired_attr(
    p: Pairs,
    t: TableModel,
    a: (Seq<char>, Seq<char>, Seq<char>),
) -> Pairs {
    if rows::is_key_column(t, a.0) {
        p
    } else {
        match column_named(t.columns, a.0) {
            Some(column) => paired(
                p,
                column,
                if (text::listed(rows::sources_of(t.fk_constraints), column) || a.1
                    == "TranslatedString"@) && rows::refers_to_nothing(a.2) {
                    SqlModel::Null
                } else {
                    types::coerced(a.2, a.1)
                },
            ),
            None => p,
        }
    }
}

/// The columns and values of a node with several attributes more.
pub open spec fn paired_attrs(
    p: Pairs,
    t: TableModel,
    attrs: Seq<(Seq<char>, Seq<char>, Seq<char>)>,
) -> Pairs
    decreases attrs.len(),
{
    if attrs.len() == 0 {
        p
    } else {
        paired_attr(paired_attrs(p, t, attrs.drop_last()), t, attrs.last())
    }
}

/// The key of a node's row: its own, or a made one. A table without a natural
/// key gives none.
pub open spec fn node_key(
    t: TableModel,
    attrs: Seq<(Seq<char>, Seq<char>, Seq<char>)>,
    next_key: u64,
) -> Option<Seq<char>> {
    if t.pk_strategy == PkStrategy::Rowid {
        None
    } else {
        match found_key(attrs, t.pk_strategy.key_column()) {
            Some(v) => Some(v),
            None => Some(row_fill::made_key(next_key)),
        }
    }
}

/// The columns and values of a node.
pub open spec fn node_pairs(
    t: TableModel,
    attrs: Seq<(Seq<char>, Seq<char>, Seq<char>)>,
    file_id: i64,
    next_key: u64,
) -> Pairs {
    let none = Pairs { columns: Seq::empty(), values: Seq::empty() };
    let filed = if t.has_file_id {
        paired(none, "_file_id"@, SqlModel::Integer(file_id as int))
    } else {
        none
    };
    let keyed = match node_key(t, attrs, next_key) {
        Some(k) => paired(filed, t.pk_strategy.key_column(), SqlModel::Text(k)),
        None => filed,
    };
    paired_attrs(keyed, t, attrs)
}

fn pair_attr(
    columns: &mut Vec<String>,
    values: &mut Vec<SqlValue>,
    table: &TableSchema,
    sources: &Vec<String>,
    a: &(String, String, String),
)
    requires
        sources.deep_view() == rows::sources_of(table.deep_view().fk_constraints),
    ensures
        (Pairs {
            columns: final(columns).deep_view(),
            values: final(values).deep_view(),
        }) == paired_attr(
            Pairs { columns: old(columns).deep_view(), values: old(values).deep_view() },
            table.deep_view(),
            a.deep_view(),
        ),
{
    let strategy = table.pk_strategy;
    if strategy != PkStrategy::Rowid && eq_ignore_case(a.0.as_str(), strategy.pk_column()) {
        return;
    }
    match find_column(&table.columns, a.0.as_str()) {
        Some(column) => {
            let refers = list_has(sources, column.as_str()) || text_eq(
                a.1.as_str(),
                "TranslatedString",
            );
            let value = if refers && !is_reference(a.2.as_str()) {
                SqlValue::Null
            } else {
                coerce_value(a.2.as_str(), a.1.as_str())
            };
            pair(columns, values, column, value);
        },
        None => {},
    }
}

/// A row of a node, written out.
#[derive(Debug)]
pub struct NodeStatement {
    pub statement: Statement,
    /// The key, unless the table makes it.
    pub key: Option<String>,
    /// Whether the key is a made one.
    pub made: bool,
}

/// The statement that inserts the row of a node. It fails where there is no such
/// table. Where the row has no key of its own, it gets the one numbered
/// `next_key`.
#[verifier::loop_isolation(false)]
pub fn insert_lsx_row(
    table_name: &str,
    file_id: i64,
    attrs: &Vec<(String, String, String)>,
    schema: &DiscoveredSchema,
    next_key: u64,
) -> (r: Result<NodeStatement, String>)
    ensures
        match textmap::value_of(schema.deep_view().tables, table_name@) {
            Some(t) => {
                let p = node_pairs(t, attrs.deep_view(), file_id, next_key);
                &&& r matches Ok(n)
                &&& n.statement.deep_view() == (StatementModel {
                    what: sql::naming("Insert into"@, table_name@),
                    sql: sql::insert_sql(table_name@, p.columns),
                    params: p.values,
                })
                &&& n.key.deep_view() == node_key(t, attrs.deep_view(), next_key)
                &&& n.made == (t.pk_strategy != PkStrategy::Rowid && found_key(
                    attrs.deep_view(),
                    t.pk_strategy.key_column(),
                ) is None)
            },
            None => r matches Err(e) && e@ == "Unknown table: "@ + table_name@,
        },
{
    let ts = match schema.tables.get(table_name) {
        Some(t) => t,
        None => {
            return Err(glued("Unknown table: ", table_name));
        },
    };
    let ghost model = ts.deep_view();
    let ghost all = attrs.deep_view();
    let mut columns: Vec<String> = Vec::new();
    let mut values: Vec<SqlValue> = Vec::new();
    assert(columns.deep_view() =~= Seq::<Seq<char>>::empty());
    assert(values.deep_view() =~= Seq::<SqlModel>::empty());
    if ts.has_file_id {
        pair(&mut columns, &mut values, owned("_file_id"), SqlValue::Integer(file_id));
    }
    let sources = list_sources(&ts.fk_constraints);
    let mut made = false;
    let mut key: Option<String> = None;
    if ts.pk_strategy != PkStrategy::Rowid {
        let k = match find_key(attrs, ts.pk_strategy.pk_column()) {
            Some(v) => v,
            None => {
                made = true;
                make_key(next_key)
            },
        };
        pair(
            &mut columns,
            &mut values,
            owned(ts.pk_strategy.pk_column()),
            SqlValue::Text(k.clone()),
        );
        key = Some(k);
    }
    let ghost start = Pairs { columns: columns.deep_view(), values: values.deep_view() };
    let mut i: usize = 0;
    while i < attrs.len()
        invariant
            i <= attrs@.len(),
            all == attrs.deep_view(),
            (Pairs { columns: columns.deep_view(), values: values.deep_view() }) == paired_attrs(
                start,
                model,
                all.take(i as int),
            ),
        decreases attrs@.len() - i,
    {
        assert(all.take(i + 1).drop_last() =~= all.take(i as int));
        assert(all[i as int] == attrs@[i as int].deep_view());
        pair_attr(&mut columns, &mut values, ts, &sources, &attrs[i]);
        i += 1;
    }
    assert(all.take(i as int) =~= all);
    let sql = insert_statement(table_name, &columns);
    Ok(NodeStatement { statement: Statement { what: sql::name_in("Insert into", table_name), sql, params: values }, key, made })
}

/// The row of a localized text.
pub open spec fn loca_statement(e: LocaModel, file_id: i64) -> StatementModel {
    StatementModel {
        what: "Insert loca"@,
        sql: "INSERT OR IGNORE INTO \"loca__english\" (contentuid, _file_id, version, text) VALUES (?1, ?2, ?3, ?4)"@,
        params: seq![
            SqlModel::Text(e.contentuid),
            SqlModel::Integer(file_id as int),
            SqlModel::Integer(e.version as int),
            sql::optional_value(e.text),
        ],
    }
}

/// The statements for localized texts, if there is a table for them.
#[verifier::loop_isolation(false)]
pub fn process_loca(entries: &Vec<ParsedLocaEntry>, file_id: i64, schema: &DiscoveredSchema) -> (r:
    Vec<Statement>)
    ensures
        r.deep_view() == (if textmap::has_key(schema.deep_view().tables, "loca__english"@) {
            Seq::new(
                entries@.len(),
                |i: int| loca_statement(entries.deep_view()[i], file_id),
            )
        } else {
            Seq::empty()
        }),
{
    let mut r: Vec<Statement> = Vec::new();
    if !schema.tables.contains_key("loca__english") {
        assert(r.deep_view() =~= Seq::<StatementModel>::empty());
        return r;
    }
    let ghost all = entries.deep_view();
    let ghost want = Seq::new(entries@.len(), |i: int| loca_statement(all[i], file_id));
    assert(r.deep_view() =~= want.take(0));
    let mut i: usize = 0;
    while i < entries.len()
        invariant
            i <= entries@.len(),
            all == entries.deep_view(),
            r.deep_view() == want.take(i as int),
        decreases entries@.len() - i,
    {
        let e = &entries[i];
        assert(all[i as int] == e.deep_view());
        let params: Vec<SqlValue> = vec![
            text_value(e.contentuid.as_str()),
            SqlValue::Integer(file_id),
            SqlValue::Integer(e.version),
            opt_value(&e.text),
        ];
        assert(params.deep_view() =~= want[i as int].params);
        let st = Statement {
            what: owned("Insert loca"),
            sql: owned(
                "INSERT OR IGNORE INTO \"loca__english\" (contentuid, _file_id, version, text) VALUES (?1, ?2, ?3, ?4)",
            ),
            params,
        };
        let ghost before = r.deep_view();
        r.push(st);
        assert(r.deep_view() =~= before.push(st.deep_view()));
        assert(want.take(i + 1) =~= want.take(i as int).push(want[i as int]));
        i += 1;
    }
    assert(want.take(i as int) =~= want);
    r
}

} // verus!
