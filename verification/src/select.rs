//! Reading tables whose columns are only known from the database.

use vstd::prelude::*;
use vstd::string::*;
use crate::files;
use crate::sql;
use crate::sql::{list_names, quote};
use crate::text;
use crate::text::{chars_of, copy_opt, int_text, join, list_has, owned, text_eq, word_char};

verus! {

/// The order in which the main table of a region comes first: one without
/// parents, then one right below the root, then the one with the most rows.
pub const ROOT_TABLE_ORDER: &'static str = "ORDER BY CASE WHEN parent_tables IS NULL THEN 0 WHEN parent_tables LIKE '%\\_\\_root' ESCAPE '\\' THEN 1 ELSE 2 END, row_count DESC LIMIT 1";

/// The query for the main table of a region.
pub fn region_table_query() -> (r: String)
    ensures
        r@
            == "SELECT table_name FROM _table_meta WHERE region_id = ?1 AND source_type = 'lsx' AND row_count > 0 "@
            + ROOT_TABLE_ORDER@,
{
    let mut s = owned(
        "SELECT table_name FROM _table_meta WHERE region_id = ?1 AND source_type = 'lsx' AND row_count > 0 ",
    );
    s.append(ROOT_TABLE_ORDER);
    s
}

/// What is said where a region has no table.
pub fn missing_table_error(region_id: &str, cause: &str) -> (r: String)
    ensures
        r@ == "No table for region '"@ + region_id@ + "': "@ + cause@,
{
    let mut s = owned("No table for region '");
    s.append(region_id);
    s.append("': ");
    s.append(cause);
    s
}

/// Whether a name can stand in a statement: letters, digits and underscores, at
/// least one.
pub open spec fn valid_table_name(name: Seq<char>) -> bool {
    name.len() > 0 && forall|i: int| 0 <= i < name.len() ==> text::is_word(#[trigger] name[i])
}

/// What is wrong with the name of a table.
pub open spec fn table_name_error(name: Seq<char>) -> Seq<char> {
    if name.len() == 0 {
        "Table name must not be empty"@
    } else {
        "Invalid table name '"@ + name
            + "': only ASCII alphanumeric characters and underscores are allowed"@
    }
}

/// Whether a name can stand in a statement, or what is wrong with it.
#[verifier::loop_isolation(false)]
pub fn validate_table_name(table_name: &str) -> (r: Result<(), String>)
    ensures
        match r {
            Ok(_) => valid_table_name(table_name@),
            Err(e) => !valid_table_name(table_name@) && e@ == table_name_error(table_name@),
        },
{
    let v = chars_of(table_name);
    if v.len() == 0 {
        return Err(owned("Table name must not be empty"));
    }
    let mut i: usize = 0;
    while i < v.len()
        invariant
            i <= v@.len(),
            forall|j: int| 0 <= j < i ==> text::is_word(#[trigger] table_name@[j]),
        decreases v@.len() - i,
    {
        if !word_char(v[i]) {
            assert(!text::is_word(table_name@[i as int]));
            let mut e = owned("Invalid table name '");
            e.append(table_name);
            e.append("': only ASCII alphanumeric characters and underscores are allowed");
            return Err(e);
        }
        i += 1;
    }
    Ok(())
}

/// The key column among columns: the first of the usual ones that is there.
pub open spec fn key_among(columns: Seq<Seq<char>>) -> Seq<char> {
    if text::listed(columns, "UUID"@) {
        "UUID"@
    } else if text::listed(columns, "MapKey"@) {
        "MapKey"@
    } else if text::listed(columns, "_row_id"@) {
        "_row_id"@
    } else {
        "rowid"@
    }
}

/// The key column among columns.
pub fn find_key(columns: &Vec<String>) -> (r: &'static str)
    ensures
        r@ == key_among(columns.deep_view()),
{
    if list_has(columns, "UUID") {
        "UUID"
    } else if list_has(columns, "MapKey") {
        "MapKey"
    } else if list_has(columns, "_row_id") {
        "_row_id"
    } else {
        "rowid"
    }
}

/// The key column as text in a query.
pub open spec fn key_expression(key: Seq<char>) -> Seq<char> {
    if key == "_row_id"@ || key == "rowid"@ {
        "CAST("@ + sql::quoted(key) + " AS TEXT)"@
    } else {
        sql::quoted(key)
    }
}

/// The key column as text in a query.
pub fn express_key(key: &str) -> (r: String)
    ensures
        r@ == key_expression(key@),
{
    let q = quote(key);
    if text_eq(key, "_row_id") || text_eq(key, "rowid") {
        let mut r = owned("CAST(");
        r.append(q.as_str());
        r.append(" AS TEXT)");
        r
    } else {
        q
    }
}

/// Those of the wanted columns that are there.
pub open spec fn kept(columns: Seq<Seq<char>>, wanted: Seq<Seq<char>>) -> Seq<Seq<char>>
    decreases wanted.len(),
{
    if wanted.len() == 0 {
        Seq::empty()
    } else {
        let before = kept(columns, wanted.drop_last());
        if text::listed(columns, wanted.last()) {
            before.push(wanted.last())
        } else {
            before
        }
    }
}

/// Those of the wanted columns that are there.
#[verifier::loop_isolation(false)]
pub fn keep_columns(columns: &Vec<String>, wanted: &Vec<&'static str>) -> (r: Vec<String>)
    ensures
        r.deep_view() == kept(columns.deep_view(), wanted.deep_view()),
{
    let ghost all = wanted.deep_view();
    let mut r: Vec<String> = Vec::new();
    assert(r.deep_view() =~= kept(columns.deep_view(), all.take(0)));
    let mut i: usize = 0;
    while i < wanted.len()
        invariant
            i <= wanted@.len(),
            all == wanted.deep_view(),
            r.deep_view() == kept(columns.deep_view(), all.take(i as int)),
        decreases wanted@.len() - i,
    {
        assert(all.take(i + 1).drop_last() =~= all.take(i as int));
        assert(all[i as int] == wanted@[i as int]@);
        let ghost before = r.deep_view();
        if list_has(columns, wanted[i]) {
            r.push(owned(wanted[i]));
            assert(r.deep_view() =~= before.push(all[i as int]));
        }
        i += 1;
    }
    assert(all.take(i as int) =~= all);
    r
}

/// A query for the key and some columns, in the order of the key.
pub open spec fn entries_sql(table: Seq<char>, key: Seq<char>, columns: Seq<Seq<char>>) -> Seq<char> {
    "SELECT "@ + text::joined(seq![key_expression(key)] + sql::all_quoted(columns), ", "@)
        + " FROM \""@ + table + "\" ORDER BY \""@ + key + "\""@
}

/// The query for the key and some columns, in the order of the key.
#[verifier::loop_isolation(false)]
pub fn entries_query(table: &str, key: &str, columns: &Vec<String>) -> (r: String)
    ensures
        r@ == entries_sql(table@, key@, columns.deep_view()),
{
    let ghost want = sql::all_quoted(columns.deep_view());
    let mut parts: Vec<String> = vec![express_key(key)];
    let ghost head = parts.deep_view();
    assert(head =~= seq![key_expression(key@)]);
    assert(head + want.take(0) =~= head);
    let mut i: usize = 0;
    while i < columns.len()
        invariant
            i <= columns@.len(),
            want == sql::all_quoted(columns.deep_view()),
            parts.deep_view() == head + want.take(i as int),
        decreases columns@.len() - i,
    {
        let part = quote(columns[i].as_str());
        assert(columns.deep_view()[i as int] == columns@[i as int]@);
        let ghost before = parts.deep_view();
        parts.push(part);
        assert(parts.deep_view() =~= before.push(part@));
        assert(want.take(i + 1) =~= want.take(i as int).push(want[i as int]));
        assert(parts.deep_view() =~= head + want.take(i + 1));
        i += 1;
    }
    assert(want.take(i as int) =~= want);
    let list = join(&parts, ", ");
    let mut s = owned("SELECT ");
    s.append(list.as_str());
    s.append(" FROM \"");
    s.append(table);
    s.append("\" ORDER BY \"");
    s.append(key);
    s.append("\"");
    s
}

/// The limit of a query: none where zero or nothing is asked for.
pub fn effective_limit(limit: Option<usize>) -> (r: i64)
    ensures
        r == (match limit {
            Some(n) => if n as i64 == 0 {
                -1i64
            } else {
                n as i64
            },
            None => -1i64,
        }),
{
    match limit {
        Some(n) => {
            let lim: i64 = n as i64;
            if lim == 0 {
                -1
            } else {
                lim
            }
        },
        None => -1,
    }
}

/// The columns of a table, each in double quotes, from a table.
pub open spec fn all_columns_sql(table: Seq<char>, columns: Seq<Seq<char>>) -> Seq<char> {
    "SELECT "@ + sql::name_list(columns) + " FROM \""@ + table + "\""@
}

/// The query for all rows of a table.
pub fn all_columns_query(table: &str, columns: &Vec<String>) -> (r: String)
    ensures
        r@ == all_columns_sql(table@, columns.deep_view()),
{
    let list = list_names(columns);
    let mut s = owned("SELECT ");
    s.append(list.as_str());
    s.append(" FROM \"");
    s.append(table);
    s.append("\"");
    s
}

// ---------------------------------------------------------------------------
// Rows
// ---------------------------------------------------------------------------

/// A row with its key and the texts of some columns.
#[derive(Debug)]
pub struct NamedRow {
    pub key: String,
    pub cells: Vec<Option<String>>,
}

/// What a row with its key says.
pub struct NamedModel {
    pub key: Seq<char>,
    pub cells: Seq<Option<Seq<char>>>,
}

impl DeepView for NamedRow {
    type V = NamedModel;

    open spec fn deep_view(&self) -> NamedModel {
        NamedModel { key: self.key@, cells: self.cells.deep_view() }
    }
}

/// The text of a column in a row, where both have it.
pub open spec fn cell_of(
    columns: Seq<Seq<char>>,
    cells: Seq<Option<Seq<char>>>,
    name: Seq<char>,
) -> Option<Seq<char>> {
    let i = files::place_in(columns, name, 0);
    if 0 <= i < columns.len() && i < cells.len() {
        cells[i]
    } else {
        None
    }
}

/// The text of a column in a row.
#[verifier::loop_isolation(false)]
pub fn get_cell(columns: &Vec<String>, row: &NamedRow, name: &str) -> (r: Option<String>)
    ensures
        r.deep_view() == cell_of(columns.deep_view(), row.deep_view().cells, name@),
{
    let ghost all = columns.deep_view();
    let mut i: usize = 0;
    while i < columns.len()
        invariant
            i <= columns@.len(),
            all == columns.deep_view(),
            files::place_in(all, name@, i as int) == files::place_in(all, name@, 0),
        decreases columns@.len() - i,
    {
        assert(all[i as int] == columns@[i as int]@);
        if text_eq(columns[i].as_str(), name) {
            assert(row.deep_view().cells.len() == row.cells@.len());
            if i < row.cells.len() {
                assert(row.deep_view().cells[i as int] == row.cells@[i as int].deep_view());
                return copy_opt(&row.cells[i]);
            } else {
                return None;
            }
        }
        i += 1;
    }
    None
}

/// A stored value as it is read back.
#[derive(Debug)]
pub enum Cell {
    Null,
    Integer(i64),
    /// A real number, written out.
    Real(String),
    Text(String),
    Blob,
}

/// A stored value as it is read back.
pub enum CellModel {
    Null,
    Integer(int),
    Real(Seq<char>),
    Text(Seq<char>),
    Blob,
}

impl DeepView for Cell {
    type V = CellModel;

    open spec fn deep_view(&self) -> CellModel {
        match self {
            Cell::Null => CellModel::Null,
            Cell::Integer(n) => CellModel::Integer(*n as int),
            Cell::Real(s) => CellModel::Real(s@),
            Cell::Text(s) => CellModel::Text(s@),
            Cell::Blob => CellModel::Blob,
        }
    }
}

/// The text of a stored value, where it has one.
pub open spec fn cell_text(c: CellModel) -> Option<Seq<char>> {
    match c {
        CellModel::Null => None,
        CellModel::Integer(n) => Some(text::decimal_int(n)),
        CellModel::Real(s) => Some(s),
        CellModel::Text(s) => Some(s),
        CellModel::Blob => None,
    }
}

/// The text of a stored value, where it has one.
pub fn text_of_cell(c: &Cell) -> (r: Option<String>)
    ensures
        r.deep_view() == cell_text(c.deep_view()),
{
    match c {
        Cell::Null => None,
        Cell::Integer(n) => Some(int_text(*n)),
        Cell::Real(s) => Some(s.clone()),
        Cell::Text(s) => Some(s.clone()),
        Cell::Blob => None,
    }
}

} // verus!
