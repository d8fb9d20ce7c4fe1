//! What holds of the edits that are written and read.

use vstd::prelude::*;
use crate::discovery_laws;
use crate::fk_patterns;
use crate::fk_patterns::FkType;
use crate::memory;
use crate::scan_laws;
use crate::schema::{SchemaModel, TableModel};
use crate::select;
use crate::sql;
use crate::staging;
use crate::staging::{ChangeModel, EditedModel, EditedRowsModel, JsonModel, StoredModel,
    UpsertModel};
use crate::text;
use crate::textmap;
use crate::types;
use crate::types::SqlModel;

verus! {

// ---------------------------------------------------------------------------
// Writing rows
// ---------------------------------------------------------------------------

/// Whether a table has a column, as its key or as one of its data columns.
pub open spec fn has_column(t: TableModel, name: Seq<char>) -> bool {
    name == t.pk_strategy.key_column() || exists|i: int|
        0 <= i < t.columns.len() && (#[trigger] t.columns[i]).name == name
}

/// The columns of an edit that the table has are kept in order, and no others.
pub proof fn law_known_columns_stay(
    a: Seq<(Seq<char>, Seq<char>)>,
    b: Seq<(Seq<char>, Seq<char>)>,
    t: TableModel,
)
    ensures
        staging::known_columns(a + b, t) == staging::known_columns(a, t) + staging::known_columns(
            b,
            t,
        ),
        b.len() == 1 ==> staging::known_columns(b, t) == (if has_column(t, b[0].0) {
            b
        } else {
            Seq::empty()
        }),
    decreases b.len(),
{
    if b.len() == 0 {
        assert(a + b =~= a);
        assert(staging::known_columns(a, t) + staging::known_columns(b, t)
            =~= staging::known_columns(a, t));
    } else {
        assert((a + b).drop_last() =~= a + b.drop_last());
        assert((a + b).last() == b.last());
        law_known_columns_stay(a, b.drop_last(), t);
        assert(staging::known_columns(a + b, t) =~= staging::known_columns(a, t)
            + staging::known_columns(b, t));
        reveal_with_fuel(staging::known_columns, 2);
        if b.len() == 1 && has_column(t, b[0].0) {
            assert(staging::known_columns(b, t) =~= b);
        }
    }
}

proof fn lemma_known_value(
    columns: Seq<(Seq<char>, Seq<char>)>,
    t: TableModel,
    name: Seq<char>,
)
    requires
        textmap::distinct(columns),
    ensures
        textmap::value_of(staging::known_columns(columns, t), name) == if has_column(t, name) {
            textmap::value_of(columns, name)
        } else {
            None
        },
    decreases columns.len(),
{
    let r = staging::known_columns(columns, t);
    if columns.len() == 0 {
        textmap::lemma_key_pos(r, name);
    } else {
        let d = columns.drop_last();
        let before = staging::known_columns(d, t);
        let last = columns.last();
        assert forall|i: int, j: int| 0 <= i < j < d.len() implies #[trigger] d[i].0
            != #[trigger] d[j].0 by {
            assert(columns[i].0 != columns[j].0);
        }
        lemma_known_value(d, t, name);
        lemma_known_value(d, t, last.0);
        textmap::lemma_key_pos(d, last.0);
        if textmap::has_key(d, last.0) {
            let k = textmap::key_pos(d, last.0)->0;
            assert(columns[k].0 != columns[columns.len() - 1].0);
        }
        assert(!textmap::has_key(before, last.0));
        discovery_laws::lemma_set(before, last.0, last.1, name);
        discovery_laws::lemma_set(d, last.0, last.1, name);
        assert(textmap::with_value(d, last.0, last.1) =~= columns);
        if has_column(t, last.0) {
            assert(textmap::with_value(before, last.0, last.1) =~= r);
        }
    }
}

/// An edit writes what it gives for the columns that the table has. Its row is named by the
/// key that is given, or by the next number where the table numbers its rows and the row is
/// new. Without either, and without the table, it fails.
pub proof fn law_edit_is_planned(
    schema: SchemaModel,
    table: Seq<char>,
    columns: Seq<(Seq<char>, Seq<char>)>,
    is_new: bool,
    next_id: i64,
    name: Seq<char>,
)
    requires
        textmap::distinct(columns),
    ensures
        ({
            let r = staging::planned(schema, table, columns, is_new, next_id);
            &&& !textmap::has_key(schema.tables, table) ==> r is Err
            &&& textmap::value_of(schema.tables, table) matches Some(t) ==> {
                let key = t.pk_strategy.key_column();
                let given = textmap::value_of(columns, key);
                let numbered = key == "_row_id"@ && is_new && given is None;
                &&& r is Ok <==> given is Some || numbered
                &&& r matches Ok(p) ==> {
                    &&& p.table == table
                    &&& p.pk_column == key
                    &&& given is Some ==> p.pk_value == given->0
                    &&& numbered ==> p.pk_value == text::decimal_int(next_id as int)
                    &&& textmap::value_of(p.columns, key) == Some(p.pk_value)
                    &&& name != key ==> textmap::value_of(p.columns, name) == if has_column(
                        t,
                        name,
                    ) {
                        textmap::value_of(columns, name)
                    } else {
                        None
                    }
                }
            }
        }),
{
    if textmap::has_key(schema.tables, table) {
        let t = textmap::value_of(schema.tables, table)->0;
        let key = t.pk_strategy.key_column();
        let known = staging::known_columns(columns, t);
        lemma_known_value(columns, t, name);
        lemma_known_value(columns, t, key);
        lemma_known_value(columns, t, "_row_id"@);
        discovery_laws::lemma_set(
            known,
            "_row_id"@,
            text::decimal_int(next_id as int),
            name,
        );
    }
}

/// Whether assignments and values are those of columns but for the key, one by one.
pub open spec fn are_assigned(
    columns: Seq<(Seq<char>, Seq<char>)>,
    key: Seq<char>,
    sets: Seq<Seq<char>>,
    values: Seq<SqlModel>,
) -> bool
    decreases columns.len(),
{
    if columns.len() == 0 {
        sets.len() == 0 && values.len() == 0
    } else if columns.last().0 == key {
        are_assigned(columns.drop_last(), key, sets, values)
    } else {
        &&& sets.len() > 0
        &&& values.len() > 0
        &&& sets.last() == sql::quoted(columns.last().0) + " = ?"@
        &&& values.last() == SqlModel::Text(columns.last().1)
        &&& are_assigned(columns.drop_last(), key, sets.drop_last(), values.drop_last())
    }
}

proof fn lemma_assigned(columns: Seq<(Seq<char>, Seq<char>)>, key: Seq<char>)
    ensures
        are_assigned(
            columns,
            key,
            staging::assignments(columns, key),
            staging::assigned_values(columns, key),
        ),
    decreases columns.len(),
{
    if columns.len() > 0 {
        let d = columns.drop_last();
        lemma_assigned(d, key);
        if columns.last().0 != key {
            assert(staging::assignments(columns, key).drop_last() =~= staging::assignments(d, key));
            assert(staging::assigned_values(columns, key).drop_last() =~= staging::assigned_values(
                d,
                key,
            ));
        }
    }
}

/// A row that is there is changed in its columns but for its key, found by its key, and
/// marked: as new where it was new, and as modified elsewhere.
pub proof fn law_update_sets_columns(p: UpsertModel, was_new: bool)
    ensures
        ({
            let s = staging::update_model(p, was_new);
            let sets = staging::assignments(p.columns, p.pk_column);
            let mark = if was_new {
                "\"_is_new\" = 1"@
            } else {
                "\"_is_modified\" = 1"@
            };
            let n = sets.len() as int;
            &&& s.params.len() == n + 1
            &&& s.params[n] == SqlModel::Text(p.pk_value)
            &&& are_assigned(p.columns, p.pk_column, sets, s.params.drop_last())
            &&& n > 0 ==> s.sql == "UPDATE "@ + sql::quoted(p.table) + " SET "@ + text::joined(
                sets,
                ", "@,
            ) + ", "@ + mark + " WHERE "@ + sql::quoted(p.pk_column) + " = ?"@
            &&& n == 0 ==> s.sql == "UPDATE "@ + sql::quoted(p.table) + " SET "@ + mark + " WHERE "@
                + sql::quoted(p.pk_column) + " = ?1"@
        }),
{
    lemma_assigned(p.columns, p.pk_column);
    lemma_as_many(p.columns, p.pk_column);
    let s = staging::update_model(p, was_new);
    let values = staging::assigned_values(p.columns, p.pk_column);
    assert(s.params.drop_last() =~= values);
}

proof fn lemma_as_many(columns: Seq<(Seq<char>, Seq<char>)>, key: Seq<char>)
    ensures
        staging::assignments(columns, key).len() == staging::assigned_values(columns, key).len(),
    decreases columns.len(),
{
    if columns.len() > 0 {
        lemma_as_many(columns.drop_last(), key);
    }
}

/// A row that is added has all columns of the edit, each with its value in its place, and
/// is marked as new or as modified.
pub proof fn law_insert_has_columns(p: UpsertModel, is_new: bool, i: int)
    requires
        0 <= i < p.columns.len(),
    ensures
        ({
            let s = staging::insert_model(p, is_new);
            let names = textmap::keys_of(p.columns);
            &&& names.len() == p.columns.len()
            &&& names[i] == p.columns[i].0
            &&& s.params.len() == p.columns.len()
            &&& s.params[i] == SqlModel::Text(p.columns[i].1)
            &&& is_new ==> s.sql == "INSERT INTO "@ + sql::quoted(p.table) + " ("@ + sql::name_list(
                names + seq!["_is_new"@, "_is_modified"@],
            ) + ") VALUES ("@ + text::joined(
                sql::marks(1, names.len()) + seq!["1"@, "0"@],
                ", "@,
            ) + ")"@
            &&& !is_new ==> s.sql == "INSERT INTO "@ + sql::quoted(p.table) + " ("@
                + sql::name_list(names + seq!["_is_new"@, "_is_modified"@]) + ") VALUES ("@
                + text::joined(sql::marks(1, names.len()) + seq!["0"@, "1"@], ", "@) + ")"@
        }),
{
}

/// A row that is not there needs no deletion; one that is new is taken out, and any other
/// is marked and stays.
pub proof fn law_deletion_spares_old_rows(
    table: Seq<char>,
    key: Seq<char>,
    pk: Seq<char>,
    existing: Option<bool>,
)
    ensures
        ({
            let d = staging::deletion(table, key, pk, existing);
            &&& d is Some <==> existing is Some
            &&& d matches Some(m) ==> {
                &&& m.gone <==> existing == Some(true)
                &&& m.statement.params == seq![SqlModel::Text(pk)]
                &&& m.gone ==> m.label == "delete"@ && m.statement.sql == "DELETE FROM "@
                    + sql::quoted(table) + " WHERE "@ + sql::quoted(key) + " = ?1"@
                &&& !m.gone ==> m.label == "mark_deleted"@ && m.statement.sql == "UPDATE "@
                    + sql::quoted(table) + " SET \"_is_deleted\" = "@ + "1"@ + " WHERE "@
                    + sql::quoted(key) + " = ?1"@
            }
        }),
{
}

// ---------------------------------------------------------------------------
// Reading rows
// ---------------------------------------------------------------------------

/// A value that is read from the database is stored again as it was, but for bytes.
pub proof fn law_values_come_back(v: StoredModel)
    ensures
        match v {
            StoredModel::Null => staging::json_stored(staging::stored_json(v)) == SqlModel::Null,
            StoredModel::Integer(n) => staging::json_stored(staging::stored_json(v))
                == SqlModel::Integer(n),
            StoredModel::Real(s) => staging::json_stored(staging::stored_json(v)) == SqlModel::Real(
                s,
            ),
            StoredModel::Text(s) => staging::json_stored(staging::stored_json(v)) == SqlModel::Text(
                s,
            ),
            StoredModel::Blob(n) => staging::stored_json(v) == JsonModel::Text(
                "[blob:"@ + text::decimal(n) + " bytes]"@,
            ),
        },
{
}

/// A row is read column by column.
pub proof fn law_row_is_read_by_columns(
    names: Seq<Seq<char>>,
    values: Seq<StoredModel>,
    n: int,
    i: int,
)
    requires
        scan_laws::no_doubles(names),
        0 <= i < n <= names.len(),
    ensures
        textmap::value_of(staging::json_row(names, values, n), names[i]) == Some(
            staging::stored_json(values[i]),
        ),
    decreases n,
{
    let before = staging::json_row(names, values, n - 1);
    discovery_laws::lemma_set(
        before,
        names[n - 1],
        staging::stored_json(values[n - 1]),
        names[i],
    );
    if i < n - 1 {
        assert(names[i] != names[n - 1]);
        law_row_is_read_by_columns(names, values, n - 1, i);
    }
}

/// Whether a value is a mark: a small whole number.
pub open spec fn is_mark(v: StoredModel) -> bool {
    v matches StoredModel::Integer(n) && i32::MIN <= n <= i32::MAX
}

/// Whether a column marks edits.
pub open spec fn is_mark_column(name: Seq<char>) -> bool {
    name == "_is_new"@ || name == "_is_modified"@ || name == "_is_deleted"@
}

/// Whether what is read of an edited row tells of a column what the row holds.
pub open spec fn tells_column(
    e: EditedModel,
    name: Seq<char>,
    v: StoredModel,
    key: Seq<char>,
) -> bool {
    &&& name == "_is_new"@ ==> (e.is_new <==> v == StoredModel::Integer(1))
    &&& name == "_is_modified"@ ==> (e.is_modified <==> v == StoredModel::Integer(1))
    &&& name == "_is_deleted"@ ==> (e.is_deleted <==> v == StoredModel::Integer(1))
    &&& !is_mark_column(name) ==> textmap::value_of(e.columns, name) == Some(
        staging::stored_json(v),
    )
    &&& !is_mark_column(name) && name == key ==> e.pk_value == staging::plain_text(
        staging::stored_json(v),
    )
}

proof fn lemma_edited(
    names: Seq<Seq<char>>,
    values: Seq<StoredModel>,
    key: Seq<char>,
    n: int,
)
    requires
        scan_laws::no_doubles(names),
        0 <= n <= names.len(),
    ensures
        staging::edited_row(names, values, key, n) is Some <==> forall|i: int|
            0 <= i < n && is_mark_column(#[trigger] names[i]) ==> is_mark(values[i]),
        staging::edited_row(names, values, key, n) matches Some(e) ==> forall|i: int|
            0 <= i < n ==> tells_column(e, #[trigger] names[i], values[i], key),
    decreases n,
{
    if n > 0 {
        lemma_edited(names, values, key, n - 1);
        reveal_strlit("_is_new");
        reveal_strlit("_is_modified");
        reveal_strlit("_is_deleted");
        assert("_is_new"@.len() == 7 && "_is_modified"@.len() == 12 && "_is_deleted"@.len() == 11);
        let name = names[n - 1];
        let v = values[n - 1];
        let before = staging::edited_row(names, values, key, n - 1);
        let after = staging::edited_row(names, values, key, n);
        if after is Some {
            let b = before->0;
            let e = after->0;
            assert forall|i: int| 0 <= i < n implies tells_column(
                e,
                #[trigger] names[i],
                values[i],
                key,
            ) by {
                discovery_laws::lemma_set(b.columns, name, staging::stored_json(v), names[i]);
                if i < n - 1 {
                    assert(tells_column(b, names[i], values[i], key));
                    assert(names[i] != names[n - 1]);
                }
            }
        }
    }
}

/// An edited row tells its marks, its key and its other columns as it holds them. It can be
/// read where every mark is a small whole number.
pub proof fn law_edited_row_is_read(
    names: Seq<Seq<char>>,
    values: Seq<StoredModel>,
    key: Seq<char>,
)
    requires
        scan_laws::no_doubles(names),
    ensures
        ({
            let n = names.len() as int;
            let r = staging::edited_row(names, values, key, n);
            &&& r is Some <==> forall|i: int|
                0 <= i < n && is_mark_column(#[trigger] names[i]) ==> is_mark(values[i])
            &&& r matches Some(e) ==> forall|i: int|
                0 <= i < n ==> tells_column(e, #[trigger] names[i], values[i], key)
        }),
{
    lemma_edited(names, values, key, names.len() as int);
}

/// An edit is a deletion before all else, then an addition, then a change.
pub proof fn law_change_is_named(table: Seq<char>, e: EditedModel)
    ensures
        ({
            let c = staging::change_of(table, e);
            &&& c.table == table
            &&& c.pk_value == e.pk_value
            &&& c.columns == e.columns
            &&& e.is_deleted ==> c.change_type == "deleted"@
            &&& !e.is_deleted && e.is_new ==> c.change_type == "new"@
            &&& !e.is_deleted && !e.is_new && e.is_modified ==> c.change_type == "modified"@
            &&& !e.is_deleted && !e.is_new && !e.is_modified ==> c.change_type == "unknown"@
        }),
{
}

/// Whether an edit is that of a row of a table.
pub open spec fn is_change_of(t: EditedRowsModel, i: int, c: ChangeModel) -> bool {
    staging::edited_row(t.names, t.rows[i], t.pk_column, t.names.len() as int) matches Some(e) && c
        == staging::change_of(t.table, e)
}

proof fn lemma_row_changes(t: EditedRowsModel, n: int)
    requires
        0 <= n <= t.rows.len(),
        staging::row_changes(t, n) is Ok,
    ensures
        staging::row_changes(t, n)->Ok_0.len() == n,
        forall|i: int|
            0 <= i < n ==> is_change_of(t, i, #[trigger] staging::row_changes(t, n)->Ok_0[i]),
    decreases n,
{
    if n > 0 {
        assert(staging::row_changes(t, n - 1) is Ok);
        lemma_row_changes(t, n - 1);
        let list = staging::row_changes(t, n)->Ok_0;
        let before = staging::row_changes(t, n - 1)->Ok_0;
        assert forall|i: int| 0 <= i < n implies is_change_of(t, i, #[trigger] list[i]) by {
            if i < n - 1 {
                assert(list[i] == before[i]);
            }
        }
    }
}

/// Whether the edit of a row is among edits.
pub open spec fn tells_change(list: Seq<ChangeModel>, t: EditedRowsModel, i: int) -> bool {
    exists|at: int| 0 <= at < list.len() && is_change_of(t, i, #[trigger] list[at])
}

/// The edits of tables are those of their rows, none left out, unless one cannot be read.
pub proof fn law_all_changes_are_told(
    found: Seq<EditedRowsModel>,
    n: int,
    k: int,
    i: int,
)
    requires
        0 <= k < n <= found.len(),
        0 <= i < found[k].rows.len(),
    ensures
        staging::all_changes(found, n) matches Ok(list) ==> tells_change(list, found[k], i),
    decreases n,
{
    if staging::all_changes(found, n) is Ok {
        let list = staging::all_changes(found, n)->Ok_0;
        let before = staging::all_changes(found, n - 1)->Ok_0;
        let t = found[n - 1];
        let more = staging::row_changes(t, t.rows.len() as int)->Ok_0;
        lemma_row_changes(t, t.rows.len() as int);
        if k < n - 1 {
            law_all_changes_are_told(found, n - 1, k, i);
            let at = choose|at: int|
                0 <= at < before.len() && is_change_of(found[k], i, #[trigger] before[at]);
            assert(list[at] == before[at]);
        } else {
            assert(is_change_of(t, i, more[i]));
            assert(list[before.len() + i] == more[i]);
        }
    }
}

/// The tables that are asked for edits are all of the schema, or the one that is wanted.
pub proof fn law_wanted_tables_are_asked(
    tables: Seq<(Seq<char>, TableModel)>,
    only: Option<Seq<char>>,
    i: int,
)
    requires
        0 <= i < tables.len(),
        only is None || only == Some(tables[i].0),
    ensures
        staging::asked_tables(tables, only).contains(
            (tables[i].0, tables[i].1.pk_strategy.key_column()),
        ),
    decreases tables.len(),
{
    let d = tables.drop_last();
    let before = staging::asked_tables(d, only);
    let r = staging::asked_tables(tables, only);
    let x = (tables[i].0, tables[i].1.pk_strategy.key_column());
    if i < d.len() {
        assert(d[i] == tables[i]);
        law_wanted_tables_are_asked(d, only, i);
        let at = choose|at: int| 0 <= at < before.len() && before[at] == x;
        assert(r[at] == x);
    } else {
        assert(r[r.len() - 1] == x);
    }
}

/// No table is asked that is not wanted.
pub proof fn law_other_tables_are_not_asked(
    tables: Seq<(Seq<char>, TableModel)>,
    only: Seq<char>,
)
    ensures
        forall|k: int|
            0 <= k < staging::asked_tables(tables, Some(only)).len() ==> (
            #[trigger] staging::asked_tables(tables, Some(only))[k]).0 == only,
    decreases tables.len(),
{
    if tables.len() > 0 {
        let d = tables.drop_last();
        let before = staging::asked_tables(d, Some(only));
        let r = staging::asked_tables(tables, Some(only));
        law_other_tables_are_not_asked(d, only);
        assert forall|k: int| 0 <= k < r.len() implies (#[trigger] r[k]).0 == only by {
            if k < before.len() {
                assert(r[k] == before[k]);
            }
        }
    }
}

// ---------------------------------------------------------------------------
// Queries
// ---------------------------------------------------------------------------

/// A query asks for those of the wanted columns that are there, in the order in which they
/// are wanted.
pub proof fn law_wanted_columns_are_kept(
    columns: Seq<Seq<char>>,
    a: Seq<Seq<char>>,
    b: Seq<Seq<char>>,
)
    ensures
        select::kept(columns, a + b) == select::kept(columns, a) + select::kept(columns, b),
        b.len() == 1 ==> select::kept(columns, b) == (if columns.contains(b[0]) {
            b
        } else {
            Seq::empty()
        }),
    decreases b.len(),
{
    if b.len() == 0 {
        assert(a + b =~= a);
        assert(select::kept(columns, a) + select::kept(columns, b) =~= select::kept(columns, a));
    } else {
        assert((a + b).drop_last() =~= a + b.drop_last());
        assert((a + b).last() == b.last());
        law_wanted_columns_are_kept(columns, a, b.drop_last());
        assert(select::kept(columns, a + b) =~= select::kept(columns, a) + select::kept(
            columns,
            b,
        ));
        reveal_with_fuel(select::kept, 2);
        if b.len() == 1 && columns.contains(b[0]) {
            assert(select::kept(columns, b) =~= b);
        }
    }
}

/// The key of a table is `UUID`, `MapKey` or `_row_id`, whichever it has first, or else the
/// number that SQLite gives to rows. A number is read as a text.
pub proof fn law_key_is_found(columns: Seq<Seq<char>>)
    ensures
        ({
            let key = select::key_among(columns);
            let uuid = columns.contains("UUID"@);
            let map_key = columns.contains("MapKey"@);
            let row_id = columns.contains("_row_id"@);
            &&& uuid ==> key == "UUID"@
            &&& !uuid && map_key ==> key == "MapKey"@
            &&& !uuid && !map_key && row_id ==> key == "_row_id"@
            &&& !uuid && !map_key && !row_id ==> key == "rowid"@
            &&& uuid || map_key ==> select::key_expression(key) == sql::quoted(key)
            &&& !uuid && !map_key ==> select::key_expression(key) == "CAST("@ + sql::quoted(key)
                + " AS TEXT)"@
        }),
{
    reveal_strlit("UUID");
    reveal_strlit("MapKey");
    reveal_strlit("_row_id");
    reveal_strlit("rowid");
    assert("UUID"@.len() == 4 && "MapKey"@.len() == 6 && "_row_id"@.len() == 7 && "rowid"@.len()
        == 5);
}

/// The first pattern that a column's name matches tells what it refers to; the fallback for
/// templates speaks of columns of GUIDs alone.
pub proof fn law_first_pattern_tells(found: Seq<bool>, bg3_type: Seq<char>, i: int)
    requires
        0 <= i < found.len(),
        found[i],
        forall|k: int| 0 <= k < i ==> !(#[trigger] found[k]),
    ensures
        ({
            let rule = fk_patterns::fk_rule(i);
            let speaks = bg3_type == "guid"@ || rule.fk_type != FkType::TemplateUnresolved;
            &&& speaks ==> fk_patterns::rule_for(found, bg3_type) == Some(rule)
            &&& !speaks ==> fk_patterns::rule_for(found, bg3_type) is None
        }),
{
    fk_patterns::lemma_first_found(found);
}

/// The column type of a value type: whole numbers, real numbers, or texts.
pub proof fn law_types_are_stored(t: Seq<char>)
    ensures
        t == "bool"@ || t == "int8"@ || t == "int16"@ || t == "int32"@ || t == "int64"@ || t
            == "uint8"@ || t == "uint16"@ || t == "uint32"@ || t == "uint64"@
            <==> types::affinity(t) == "INTEGER"@,
        t == "float"@ || t == "double"@ <==> types::affinity(t) == "REAL"@,
        types::affinity(t) == "INTEGER"@ || types::affinity(t) == "REAL"@ || types::affinity(t)
            == "TEXT"@,
{
    reveal_strlit("INTEGER");
    reveal_strlit("REAL");
    reveal_strlit("TEXT");
    reveal_strlit("float");
    reveal_strlit("double");
    reveal_strlit("bool");
    reveal_strlit("int8");
    reveal_strlit("int16");
    reveal_strlit("int32");
    reveal_strlit("int64");
    reveal_strlit("uint8");
    reveal_strlit("uint16");
    reveal_strlit("uint32");
    reveal_strlit("uint64");
    assert("INTEGER"@.len() == 7 && "REAL"@.len() == 4 && "TEXT"@.len() == 4);
    assert("REAL"@[0] == 'R' && "TEXT"@[0] == 'T');
    assert("float"@[0] == 'f' && "double"@[0] == 'd');
    assert("bool"@[0] == 'b' && "int8"@[0] == 'i' && "int16"@[0] == 'i' && "int32"@[0] == 'i'
        && "int64"@[0] == 'i' && "uint8"@[0] == 'u' && "uint16"@[0] == 'u' && "uint32"@[0] == 'u'
        && "uint64"@[0] == 'u');
}

// ---------------------------------------------------------------------------
// Memory
// ---------------------------------------------------------------------------

/// Whether a text is one word.
pub open spec fn is_one_word(s: Seq<char>) -> bool {
    s.len() > 0 && forall|i: int| 0 <= i < s.len() ==> !text::is_white(#[trigger] s[i])
}

/// Whether a text is white space.
pub open spec fn is_gap(s: Seq<char>) -> bool {
    s.len() > 0 && forall|i: int| 0 <= i < s.len() ==> text::is_white(#[trigger] s[i])
}

proof fn lemma_white_at(s: Seq<char>, is_white: bool, from: int, at: int)
    requires
        0 <= from <= at <= s.len(),
        forall|i: int| from <= i < at ==> text::is_white(#[trigger] s[i]) != is_white,
        at < s.len() ==> text::is_white(s[at]) == is_white,
    ensures
        memory::place_of_white(s, is_white, from) == at,
    decreases at - from,
{
    if from < at {
        lemma_white_at(s, is_white, from + 1, at);
    }
}

/// The second word of a text stands between its first gap and its next.
pub proof fn law_second_word_is_found(
    first: Seq<char>,
    gap: Seq<char>,
    second: Seq<char>,
    rest: Seq<char>,
)
    requires
        is_one_word(first),
        is_gap(gap),
        is_one_word(second),
        rest.len() == 0 || text::is_white(rest[0]),
    ensures
        memory::second_word(first + gap + second + rest) == Some(second),
{
    let s = first + gap + second + rest;
    let a = first.len() as int;
    let b = a + gap.len();
    let c = b + second.len();
    assert forall|i: int| 0 <= i < a implies !text::is_white(#[trigger] s[i]) by {
        assert(s[i] == first[i]);
    }
    assert forall|i: int| a <= i < b implies text::is_white(#[trigger] s[i]) by {
        assert(s[i] == gap[i - a]);
    }
    assert forall|i: int| b <= i < c implies !text::is_white(#[trigger] s[i]) by {
        assert(s[i] == second[i - b]);
    }
    if c < s.len() {
        assert(s[c] == rest[0]);
    }
    lemma_white_at(s, false, 0, 0);
    lemma_white_at(s, true, 0, a);
    lemma_white_at(s, false, a, b);
    lemma_white_at(s, true, b, c);
    assert(s.subrange(b, c) =~= second);
}

/// The memory that is available is told by the first line that begins with its name.
pub proof fn law_first_line_tells_memory(lines: Seq<Seq<char>>, from: int, i: int)
    requires
        0 <= from <= i < lines.len(),
        "MemAvailable:"@.is_prefix_of(lines[i]),
        forall|j: int| from <= j < i ==> !"MemAvailable:"@.is_prefix_of(#[trigger] lines[j]),
    ensures
        memory::memory_line(lines, from) == Some(lines[i]),
    decreases i - from,
{
    if from < i {
        law_first_line_tells_memory(lines, from + 1, i);
    }
}

} // verus!
