//! Placeholders for localized texts that rows refer to and that do not exist.

use vstd::prelude::*;
use vstd::string::*;
use crate::cross_db;
use crate::cross_db::has_attached;
use crate::ddl;
use crate::ddl::has_data_column;
use crate::schema::{DiscoveredSchema, FkConstraint, FkModel, TableModel, TableSchema};
use crate::sql::{text_value, Statement, StatementModel};
use crate::text;
use crate::text::{join, owned, replace_once, text_eq};
use crate::textmap;
use crate::types::{SqlModel, SqlValue};

verus! {

/// Whether a reference of a table leads to the localized texts, from a column
/// that the table has.
pub open spec fn localizes(fk: FkModel, t: TableModel) -> bool {
    fk.target_table == "loca__english"@ && fk.target_column == "contentuid"@ && ddl::has_column(
        t,
        fk.source_column,
    )
}

/// The columns of a table that refer to localized texts.
pub open spec fn table_handles(name: Seq<char>, fks: Seq<FkModel>, t: TableModel) -> Seq<
    (Seq<char>, Seq<char>),
>
    decreases fks.len(),
{
    if fks.len() == 0 {
        Seq::empty()
    } else {
        let before = table_handles(name, fks.drop_last(), t);
        if localizes(fks.last(), t) {
            before.push((name, fks.last().source_column))
        } else {
            before
        }
    }
}

/// The columns of tables that refer to localized texts.
pub open spec fn handles_of(tables: Seq<(Seq<char>, TableModel)>) -> Seq<(Seq<char>, Seq<char>)>
    decreases tables.len(),
{
    if tables.len() == 0 {
        Seq::empty()
    } else {
        let t = tables.last();
        handles_of(tables.drop_last()) + table_handles(t.0, t.1.fk_constraints, t.1)
    }
}

fn is_localizing(fk: &FkConstraint, t: &TableSchema) -> (r: bool)
    ensures
        r == localizes(fk.deep_view(), t.deep_view()),
{
    text_eq(fk.target_table.as_str(), "loca__english") && text_eq(
        fk.target_column.as_str(),
        "contentuid",
    ) && (text_eq(fk.source_column.as_str(), t.pk_strategy.pk_column()) || has_data_column(
        &t.columns,
        fk.source_column.as_str(),
    ))
}

#[verifier::loop_isolation(false)]
fn add_table_handles(out: &mut Vec<(String, String)>, name: &str, t: &TableSchema)
    ensures
        final(out).deep_view() == old(out).deep_view() + table_handles(
            name@,
            t.deep_view().fk_constraints,
            t.deep_view(),
        ),
{
    let ghost start = out.deep_view();
    let ghost model = t.deep_view();
    let ghost all = model.fk_constraints;
    assert(start + table_handles(name@, all.take(0), model) =~= start);
    let mut i: usize = 0;
    while i < t.fk_constraints.len()
        invariant
            i <= t.fk_constraints@.len(),
            model == t.deep_view(),
            all == t.fk_constraints.deep_view(),
            out.deep_view() == start + table_handles(name@, all.take(i as int), model),
        decreases t.fk_constraints@.len() - i,
    {
        assert(all.take(i + 1).drop_last() =~= all.take(i as int));
        assert(all[i as int] == t.fk_constraints@[i as int].deep_view());
        let ghost before = out.deep_view();
        if is_localizing(&t.fk_constraints[i], t) {
            out.push((owned(name), t.fk_constraints[i].source_column.clone()));
            assert(out.deep_view() =~= before.push((name@, all[i as int].source_column)));
            assert(out.deep_view() =~= start + table_handles(name@, all.take(i + 1), model));
        }
        i += 1;
    }
    assert(all.take(i as int) =~= all);
}

/// The columns of tables that refer to localized texts.
#[verifier::loop_isolation(false)]
pub fn loca_references(schema: &DiscoveredSchema) -> (r: Vec<(String, String)>)
    ensures
        r.deep_view() == handles_of(schema.deep_view().tables),
{
    let ghost all = schema.deep_view().tables;
    let mut r: Vec<(String, String)> = Vec::new();
    assert(r.deep_view() =~= handles_of(all.take(0)));
    let mut i: usize = 0;
    while i < schema.tables.entries.len()
        invariant
            i <= schema.tables.entries@.len(),
            all == schema.tables.deep_view(),
            r.deep_view() == handles_of(all.take(i as int)),
        decreases schema.tables.entries@.len() - i,
    {
        assert(all.take(i + 1).drop_last() =~= all.take(i as int));
        let entry = &schema.tables.entries[i];
        assert(all[i as int] == (entry.0@, entry.1.deep_view()));
        add_table_handles(&mut r, entry.0.as_str(), &entry.1);
        i += 1;
    }
    assert(all.take(i as int) =~= all);
    r
}

/// The handles that a column refers to.
pub open spec fn handle_query(c: (Seq<char>, Seq<char>)) -> Seq<char> {
    "SELECT DISTINCT \""@ + c.1 + "\" AS handle FROM \""@ + c.0 + "\" WHERE \""@ + c.1
        + "\" IS NOT NULL AND \""@ + c.1 + "\" != ''"@
}

/// The handles that exist.
pub open spec fn existing_query(base_has_loca: bool) -> Seq<char> {
    if base_has_loca {
        "SELECT contentuid FROM main.\"loca__english\" UNION SELECT contentuid FROM \"base\".\"loca__english\""@
    } else {
        "SELECT contentuid FROM main.\"loca__english\""@
    }
}

/// The statement that adds a placeholder for each handle that a row refers to and
/// that does not exist.
pub open spec fn backfill_sql(columns: Seq<(Seq<char>, Seq<char>)>, base_has_loca: bool) -> Seq<
    char,
> {
    "WITH refs AS ("@ + text::joined(
        Seq::new(columns.len(), |i: int| handle_query(columns[i])),
        " UNION "@,
    ) + "), existing AS ("@ + existing_query(base_has_loca)
        + ") INSERT OR IGNORE INTO \"loca__english\" (contentuid, _file_id, version, text) SELECT handle, -1, 0, ?1 FROM refs WHERE NOT EXISTS (SELECT 1 FROM existing WHERE existing.contentuid = refs.handle)"@
}

fn make_handle_query(c: &(String, String)) -> (r: String)
    ensures
        r@ == handle_query(c.deep_view()),
{
    let mut s = owned("SELECT DISTINCT \"");
    s.append(c.1.as_str());
    s.append("\" AS handle FROM \"");
    s.append(c.0.as_str());
    s.append("\" WHERE \"");
    s.append(c.1.as_str());
    s.append("\" IS NOT NULL AND \"");
    s.append(c.1.as_str());
    s.append("\" != ''");
    s
}

/// The statement that adds a placeholder for each handle that a row refers to
/// and that does not exist.
#[verifier::loop_isolation(false)]
pub fn backfill_statement(columns: &Vec<(String, String)>, base_has_loca: bool) -> (r: Statement)
    ensures
        r.deep_view() == (StatementModel {
            what: "Backfill orphaned loca"@,
            sql: backfill_sql(columns.deep_view(), base_has_loca),
            params: seq![
                SqlModel::Text("Invalid or Unknown Localization Handle Provided"@),
            ],
        }),
{
    let ghost all = columns.deep_view();
    let ghost want = Seq::new(all.len(), |i: int| handle_query(all[i]));
    let mut parts: Vec<String> = Vec::new();
    assert(parts.deep_view() =~= want.take(0));
    let mut i: usize = 0;
    while i < columns.len()
        invariant
            i <= columns@.len(),
            all == columns.deep_view(),
            parts.deep_view() == want.take(i as int),
        decreases columns@.len() - i,
    {
        assert(all[i as int] == columns@[i as int].deep_view());
        let ghost before = parts.deep_view();
        let part = make_handle_query(&columns[i]);
        parts.push(part);
        assert(parts.deep_view() =~= before.push(part@));
        assert(want.take(i + 1) =~= want.take(i as int).push(want[i as int]));
        i += 1;
    }
    assert(want.take(i as int) =~= want);
    let unions = join(&parts, " UNION ");
    let mut sql = owned("WITH refs AS (");
    sql.append(unions.as_str());
    sql.append("), existing AS (");
    if base_has_loca {
        sql.append(
            "SELECT contentuid FROM main.\"loca__english\" UNION SELECT contentuid FROM \"base\".\"loca__english\"",
        );
    } else {
        sql.append("SELECT contentuid FROM main.\"loca__english\"");
    }
    sql.append(
        ") INSERT OR IGNORE INTO \"loca__english\" (contentuid, _file_id, version, text) SELECT handle, -1, 0, ?1 FROM refs WHERE NOT EXISTS (SELECT 1 FROM existing WHERE existing.contentuid = refs.handle)",
    );
    let params: Vec<SqlValue> = vec![
        text_value("Invalid or Unknown Localization Handle Provided"),
    ];
    assert(params.deep_view() =~= seq![
        SqlModel::Text("Invalid or Unknown Localization Handle Provided"@),
    ]);
    Statement { what: owned("Backfill orphaned loca"), sql, params }
}

/// The statements that come before placeholders: the file that they are filed
/// under.
pub fn placeholder_file() -> (r: Statement)
    ensures
        r.deep_view() == (StatementModel {
            what: "Insert synthetic source file"@,
            sql: "INSERT OR IGNORE INTO _source_files (file_id, path, file_type, mod_name, region_id, row_count, file_size) VALUES (?1, 'synthetic:loca_placeholder', 'synthetic', NULL, NULL, 0, 0)"@,
            params: seq![SqlModel::Integer(-1)],
        }),
{
    let params: Vec<SqlValue> = vec![SqlValue::Integer(-1)];
    assert(params.deep_view() =~= seq![SqlModel::Integer(-1)]);
    Statement {
        what: owned("Insert synthetic source file"),
        sql: owned(
            "INSERT OR IGNORE INTO _source_files (file_id, path, file_type, mod_name, region_id, row_count, file_size) VALUES (?1, 'synthetic:loca_placeholder', 'synthetic', NULL, NULL, 0, 0)",
        ),
        params,
    }
}

/// The statement that notes the number of placeholders, if there are any.
pub fn placeholder_count(inserted: u64) -> (r: Option<Statement>)
    ensures
        r.deep_view() == (if inserted > 0 {
            Some(
                StatementModel {
                    what: "Update synthetic source file"@,
                    sql: "UPDATE _source_files SET row_count = ?1 WHERE file_id = ?2"@,
                    params: seq![SqlModel::Integer(inserted as i64 as int), SqlModel::Integer(-1)],
                },
            )
        } else {
            None
        }),
{
    if inserted == 0 {
        return None;
    }
    let params: Vec<SqlValue> = vec![SqlValue::Integer(inserted as i64), SqlValue::Integer(-1)];
    assert(params.deep_view() =~= seq![
        SqlModel::Integer(inserted as i64 as int),
        SqlModel::Integer(-1),
    ]);
    Some(
        Statement {
            what: owned("Update synthetic source file"),
            sql: owned("UPDATE _source_files SET row_count = ?1 WHERE file_id = ?2"),
            params,
        },
    )
}

/// What there is to do about placeholders.
#[derive(Debug)]
pub enum Backfill {
    /// There is no table of localized texts.
    NoTable,
    /// Nothing refers to localized texts.
    NoReference,
    /// These columns refer to localized texts.
    Columns(Vec<(String, String)>),
}

/// What there is to do about placeholders.
pub fn backfill_orphaned_loca(schema: &DiscoveredSchema) -> (r: Backfill)
    ensures
        ({
            let handles = handles_of(schema.deep_view().tables);
            if !textmap::has_key(schema.deep_view().tables, "loca__english"@) {
                r == Backfill::NoTable
            } else if handles.len() == 0 {
                r == Backfill::NoReference
            } else {
                r matches Backfill::Columns(c) && c.deep_view() == handles
            }
        }),
{
    if !schema.tables.contains_key("loca__english") {
        return Backfill::NoTable;
    }
    let columns = loca_references(schema);
    assert(columns.deep_view().len() == columns@.len());
    if columns.len() == 0 {
        Backfill::NoReference
    } else {
        Backfill::Columns(columns)
    }
}

/// Whether the base database is to be attached: there is one, and it is not
/// attached yet.
pub fn attach_base_needed(has_path: bool, attached: &Vec<(String, String)>) -> (r: bool)
    ensures
        r == (has_path && !cross_db::is_attached(attached.deep_view(), "base"@)),
{
    has_path && !has_attached(attached, "base")
}

/// The names that a base database may have beside a database of the given name.
pub open spec fn base_names(file_name: Seq<char>) -> Seq<Seq<char>> {
    seq![
        text::replaced_once(file_name, "honor"@, "base"@),
        text::replaced_once(file_name, "Honor"@, "Base"@),
        "ref_base.sqlite"@,
    ].filter(|n: Seq<char>| n != file_name)
}

/// The names that a base database may have beside a database of the given name,
/// in the order in which they are tried.
pub fn base_fallback_names(file_name: &str) -> (r: Vec<String>)
    ensures
        r.deep_view() == base_names(file_name@),
{
    let a = replace_once(file_name, "honor", "base");
    let b = replace_once(file_name, "Honor", "Base");
    let c = owned("ref_base.sqlite");
    let ghost s = seq![a@, b@, c@];
    let ghost keep = |n: Seq<char>| n != file_name@;
    proof {
        reveal(Seq::filter);
        assert(s.drop_last() =~= seq![a@, b@]);
        assert(s.drop_last().drop_last() =~= seq![a@]);
        assert(s.drop_last().drop_last().drop_last() =~= Seq::<Seq<char>>::empty());
        reveal_with_fuel(Seq::filter, 4);
    }
    let mut r: Vec<String> = Vec::new();
    let keep_a = !text_eq(a.as_str(), file_name);
    let keep_b = !text_eq(b.as_str(), file_name);
    let keep_c = !text_eq(c.as_str(), file_name);
    if keep_a {
        r.push(a);
    }
    assert(r.deep_view() =~= s.drop_last().drop_last().filter(keep));
    let ghost one = r.deep_view();
    if keep_b {
        r.push(b);
        assert(r.deep_view() =~= one.push(b@));
    }
    assert(r.deep_view() =~= s.drop_last().filter(keep));
    let ghost two = r.deep_view();
    if keep_c {
        r.push(c);
        assert(r.deep_view() =~= two.push(c@));
    }
    assert(r.deep_view() =~= s.filter(keep));
    r
}

// ---------------------------------------------------------------------------
// What placeholders come to
// ---------------------------------------------------------------------------

/// A localized text of a database.
pub struct LocaRow {
    pub file_id: int,
    pub version: int,
    pub text: Option<Seq<char>>,
}

/// The localized texts of a database, by handle.
pub type LocaTable = Map<Seq<char>, LocaRow>;

/// The values of the columns of tables, row by row; a value that is missing is none.
pub type ColumnValues = spec_fn((Seq<char>, Seq<char>)) -> Seq<Option<Seq<char>>>;

/// The placeholder for a localized text.
pub open spec fn placeholder() -> LocaRow {
    LocaRow {
        file_id: -1,
        version: 0,
        text: Some("Invalid or Unknown Localization Handle Provided"@),
    }
}

/// Whether one of the columns refers to a handle that is not empty.
pub open spec fn refers_to(
    columns: Seq<(Seq<char>, Seq<char>)>,
    values: ColumnValues,
    handle: Seq<char>,
) -> bool {
    &&& handle.len() > 0
    &&& exists|i: int| 0 <= i < columns.len() && values(#[trigger] columns[i]).contains(Some(handle))
}

/// Whether a handle exists: in the database, or in the base database where that one has
/// localized texts.
pub open spec fn handle_exists(
    main: LocaTable,
    base: Option<LocaTable>,
    handle: Seq<char>,
) -> bool {
    main.dom().contains(handle) || (base matches Some(b) && b.dom().contains(handle))
}

/// Whether a placeholder is added for a handle: a row refers to it, and it does not
/// exist.
pub open spec fn is_orphaned(
    columns: Seq<(Seq<char>, Seq<char>)>,
    values: ColumnValues,
    main: LocaTable,
    base: Option<LocaTable>,
    handle: Seq<char>,
) -> bool {
    refers_to(columns, values, handle) && !handle_exists(main, base, handle)
}

/// The localized texts after the statement of `backfill_statement`.
pub open spec fn after_backfill(
    columns: Seq<(Seq<char>, Seq<char>)>,
    values: ColumnValues,
    main: LocaTable,
    base: Option<LocaTable>,
) -> LocaTable {
    Map::new(
        |h: Seq<char>| main.dom().contains(h) || is_orphaned(columns, values, main, base, h),
        |h: Seq<char>|
            if main.dom().contains(h) {
                main[h]
            } else {
                placeholder()
            },
    )
}

/// The localized texts after `backfill_orphaned_loca` of a schema, where there is a table
/// of them.
pub open spec fn after_schema_backfill(
    tables: Seq<(Seq<char>, TableModel)>,
    values: ColumnValues,
    main: LocaTable,
    base: Option<LocaTable>,
) -> LocaTable {
    after_backfill(handles_of(tables), values, main, base)
}

/// Placeholders are added for exactly the handles that rows refer to, that are not empty
/// and that are in neither database. The localized texts that were there stay as they
/// are. Afterwards every handle that rows refer to exists, and doing it again adds
/// nothing.
pub proof fn law_backfill_adds_orphans(
    tables: Seq<(Seq<char>, TableModel)>,
    values: ColumnValues,
    main: LocaTable,
    base: Option<LocaTable>,
)
    ensures
        ({
            let columns = handles_of(tables);
            let after = after_schema_backfill(tables, values, main, base);
            &&& forall|h: Seq<char>| #[trigger]
                main.dom().contains(h) ==> after.dom().contains(h) && after[h] == main[h]
            &&& forall|h: Seq<char>| #[trigger]
                after.dom().contains(h) && !main.dom().contains(h) <==> is_orphaned(
                    columns,
                    values,
                    main,
                    base,
                    h,
                )
            &&& forall|h: Seq<char>| #[trigger]
                is_orphaned(columns, values, main, base, h) ==> after[h] == placeholder()
            &&& forall|h: Seq<char>| #[trigger]
                refers_to(columns, values, h) ==> handle_exists(after, base, h)
            &&& after_schema_backfill(tables, values, after, base) == after
        }),
{
    let columns = handles_of(tables);
    let after = after_schema_backfill(tables, values, main, base);
    assert(after_schema_backfill(tables, values, after, base) =~= after);
}

/// Whether a table refers to localized texts from a column.
pub open spec fn refers_from(
    tables: Seq<(Seq<char>, TableModel)>,
    table: Seq<char>,
    column: Seq<char>,
) -> bool {
    exists|i: int, k: int|
        {
            &&& 0 <= i < tables.len()
            &&& (#[trigger] tables[i]).0 == table
            &&& 0 <= k < tables[i].1.fk_constraints.len()
            &&& localizes(#[trigger] tables[i].1.fk_constraints[k], tables[i].1)
            &&& tables[i].1.fk_constraints[k].source_column == column
        }
}

proof fn lemma_table_handles(name: Seq<char>, fks: Seq<FkModel>, t: TableModel)
    ensures
        forall|c: (Seq<char>, Seq<char>)| #[trigger]
            table_handles(name, fks, t).contains(c) <==> c.0 == name && exists|k: int|
                0 <= k < fks.len() && localizes(#[trigger] fks[k], t) && fks[k].source_column
                    == c.1,
    decreases fks.len(),
{
    let all = table_handles(name, fks, t);
    if fks.len() > 0 {
        let d = fks.drop_last();
        lemma_table_handles(name, d, t);
        let before = table_handles(name, d, t);
        assert forall|c: (Seq<char>, Seq<char>)| #[trigger] all.contains(c) <==> c.0 == name
            && exists|k: int|
            0 <= k < fks.len() && localizes(#[trigger] fks[k], t) && fks[k].source_column == c.1 by {
            if all.contains(c) {
                let i = choose|i: int| 0 <= i < all.len() && all[i] == c;
                if i < before.len() {
                    assert(before[i] == c);
                    assert(before.contains(c));
                    let k = choose|k: int|
                        0 <= k < d.len() && localizes(#[trigger] d[k], t) && d[k].source_column
                            == c.1;
                    assert(fks[k] == d[k]);
                } else {
                    assert(localizes(fks[fks.len() - 1], t));
                }
            }
            if c.0 == name && exists|k: int|
                0 <= k < fks.len() && localizes(#[trigger] fks[k], t) && fks[k].source_column
                    == c.1 {
                let k = choose|k: int|
                    0 <= k < fks.len() && localizes(#[trigger] fks[k], t) && fks[k].source_column
                        == c.1;
                if k < d.len() {
                    assert(localizes(d[k], t) && d[k].source_column == c.1);
                    assert(before.contains(c));
                    let i = choose|i: int| 0 <= i < before.len() && before[i] == c;
                    assert(all[i] == c);
                } else {
                    assert(all[all.len() - 1] == c);
                }
            }
        }
    }
}

/// The columns that are asked for handles are those that a reference to the localized
/// texts starts from.
pub proof fn law_handles_are_references(
    tables: Seq<(Seq<char>, TableModel)>,
    c: (Seq<char>, Seq<char>),
)
    ensures
        handles_of(tables).contains(c) <==> refers_from(tables, c.0, c.1),
    decreases tables.len(),
{
    let all = handles_of(tables);
    if tables.len() > 0 {
        let d = tables.drop_last();
        let t = tables.last();
        law_handles_are_references(d, c);
        lemma_table_handles(t.0, t.1.fk_constraints, t.1);
        let before = handles_of(d);
        let own = table_handles(t.0, t.1.fk_constraints, t.1);
        if all.contains(c) {
            let i = choose|i: int| 0 <= i < all.len() && all[i] == c;
            if i < before.len() {
                assert(before[i] == c);
                let (a, k) = choose|a: int, k: int|
                    {
                        &&& 0 <= a < d.len()
                        &&& (#[trigger] d[a]).0 == c.0
                        &&& 0 <= k < d[a].1.fk_constraints.len()
                        &&& localizes(#[trigger] d[a].1.fk_constraints[k], d[a].1)
                        &&& d[a].1.fk_constraints[k].source_column == c.1
                    };
                assert(tables[a] == d[a]);
                assert(localizes(tables[a].1.fk_constraints[k], tables[a].1));
            } else {
                assert(own[i - before.len()] == c);
                assert(own.contains(c));
                let k = choose|k: int|
                    0 <= k < t.1.fk_constraints.len() && localizes(
                        #[trigger] t.1.fk_constraints[k],
                        t.1,
                    ) && t.1.fk_constraints[k].source_column == c.1;
                let n = tables.len() - 1;
                assert(tables[n] == t);
                assert(localizes(tables[n].1.fk_constraints[k], tables[n].1));
            }
        }
        if refers_from(tables, c.0, c.1) {
            let (a, k) = choose|a: int, k: int|
                {
                    &&& 0 <= a < tables.len()
                    &&& (#[trigger] tables[a]).0 == c.0
                    &&& 0 <= k < tables[a].1.fk_constraints.len()
                    &&& localizes(#[trigger] tables[a].1.fk_constraints[k], tables[a].1)
                    &&& tables[a].1.fk_constraints[k].source_column == c.1
                };
            if a < d.len() {
                assert(d[a] == tables[a]);
                assert(localizes(d[a].1.fk_constraints[k], d[a].1));
                assert(before.contains(c));
                let i = choose|i: int| 0 <= i < before.len() && before[i] == c;
                assert(all[i] == c);
            } else {
                assert(localizes(t.1.fk_constraints[k], t.1));
                assert(own.contains(c));
                let i = choose|i: int| 0 <= i < own.len() && own[i] == c;
                assert(all[before.len() + i] == c);
            }
        }
    }
}

} // verus!
