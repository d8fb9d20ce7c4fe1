//! What holds of the journal of edits, of attached databases and of staging tables.

use vstd::prelude::*;
use crate::cross_db;
use crate::ddl;
use crate::effect_laws;
use crate::schema::{JunctionModel, PkStrategy, TableModel};
use crate::sql;
use crate::staging;
use crate::staging::JsonModel;
use crate::staging_ddl;
use crate::types::SqlModel;
use crate::undo;
use crate::undo::{EntryModel, Replay};

verus! {

// ---------------------------------------------------------------------------
// The journal
// ---------------------------------------------------------------------------

/// Whether the journal has a boundary of this number.
pub open spec fn has_boundary(journal: Seq<EntryModel>, id: int) -> bool {
    exists|i: int|
        0 <= i < journal.len() && undo::is_boundary(#[trigger] journal[i]) && journal[i].id == id
}

proof fn lemma_boundary_more(journal: Seq<EntryModel>, id: int)
    requires
        journal.len() > 0,
    ensures
        has_boundary(journal, id) <==> has_boundary(journal.drop_last(), id) || (undo::is_boundary(
            journal.last(),
        ) && journal.last().id == id),
{
    let d = journal.drop_last();
    assert(journal[journal.len() - 1] == journal.last());
    if has_boundary(d, id) {
        let i = choose|i: int|
            0 <= i < d.len() && undo::is_boundary(#[trigger] d[i]) && d[i].id == id;
        assert(journal[i] == d[i]);
    }
    if has_boundary(journal, id) {
        let i = choose|i: int|
            0 <= i < journal.len() && undo::is_boundary(#[trigger] journal[i]) && journal[i].id
                == id;
        if i < d.len() {
            assert(d[i] == journal[i]);
        }
    }
}

/// The boundary below a place is the greatest that stands below it, and that above a place
/// the least that stands above it.
pub proof fn law_boundaries_are_next(journal: Seq<EntryModel>, limit: int, other: int)
    ensures
        undo::boundary_below(journal, limit) matches Some(b) ==> has_boundary(journal, b) && b
            < limit && (has_boundary(journal, other) && other < limit ==> other <= b),
        undo::boundary_below(journal, limit) is None ==> !(has_boundary(journal, other) && other
            < limit),
        undo::boundary_above(journal, limit) matches Some(b) ==> has_boundary(journal, b) && b
            > limit && (has_boundary(journal, other) && other > limit ==> other >= b),
        undo::boundary_above(journal, limit) is None ==> !(has_boundary(journal, other) && other
            > limit),
        undo::last_boundary(journal, limit) matches Some(b) ==> has_boundary(journal, b) && b
            > limit && (has_boundary(journal, other) && other > limit ==> other <= b),
        undo::last_boundary(journal, limit) is None ==> !(has_boundary(journal, other) && other
            > limit),
    decreases journal.len(),
{
    if journal.len() > 0 {
        let d = journal.drop_last();
        law_boundaries_are_next(d, limit, other);
        lemma_boundary_more(journal, other);
        lemma_boundary_more(journal, journal.last().id);
        if undo::boundary_below(d, limit) is Some {
            lemma_boundary_more(journal, undo::boundary_below(d, limit)->0);
        }
        if undo::boundary_above(d, limit) is Some {
            lemma_boundary_more(journal, undo::boundary_above(d, limit)->0);
        }
        if undo::last_boundary(d, limit) is Some {
            lemma_boundary_more(journal, undo::last_boundary(d, limit)->0);
        }
    }
}

/// The edits between two places are those of the journal that stand there, in order,
/// without the boundaries.
pub proof fn law_edits_stand_between(
    a: Seq<EntryModel>,
    b: Seq<EntryModel>,
    low: int,
    high: int,
)
    ensures
        undo::edits_between(a + b, low, high) == undo::edits_between(a, low, high)
            + undo::edits_between(b, low, high),
        b.len() == 1 ==> undo::edits_between(b, low, high) == (if low < b[0].id < high
            && !undo::is_boundary(b[0]) {
            b
        } else {
            Seq::empty()
        }),
    decreases b.len(),
{
    if b.len() == 0 {
        assert(a + b =~= a);
        assert(undo::edits_between(a, low, high) + undo::edits_between(b, low, high)
            =~= undo::edits_between(a, low, high));
    } else {
        assert((a + b).drop_last() =~= a + b.drop_last());
        assert((a + b).last() == b.last());
        law_edits_stand_between(a, b.drop_last(), low, high);
        assert(undo::edits_between(a + b, low, high) =~= undo::edits_between(a, low, high)
            + undo::edits_between(b, low, high));
        reveal_with_fuel(undo::edits_between, 2);
        if b.len() == 1 && low < b[0].id < high && !undo::is_boundary(b[0]) {
            assert(undo::edits_between(b, low, high) =~= b);
        }
    }
}

/// An edit that added a row is undone by taking it out, one that took a row out by putting
/// it in, and one that changed a row by changing it back; doing it again is the reverse.
pub proof fn law_replay_turns_edit_round(old_row: Option<Seq<char>>, new_row: Option<Seq<char>>)
    ensures
        ({
            let back = undo::undoing(old_row, new_row);
            let again = undo::redoing(old_row, new_row);
            &&& old_row is None && new_row is None ==> back is None && again is None
            &&& old_row is None && new_row is Some ==> back == Some(Replay::Remove) && again
                == Some(Replay::Put { row: new_row->0 })
            &&& old_row is Some && new_row is None ==> back == Some(
                Replay::Put { row: old_row->0 },
            ) && again == Some(Replay::Remove)
            &&& old_row is Some && new_row is Some ==> back == Some(
                Replay::Change { row: old_row->0 },
            ) && again == Some(Replay::Change { row: new_row->0 })
        }),
{
}

/// Whether assignments and values are those of cells but for the key, one by one.
pub open spec fn are_set(
    cells: Seq<(Seq<char>, JsonModel)>,
    key: Seq<char>,
    sets: Seq<Seq<char>>,
    values: Seq<SqlModel>,
) -> bool
    decreases cells.len(),
{
    if cells.len() == 0 {
        sets.len() == 0 && values.len() == 0
    } else if cells.last().0 == key {
        are_set(cells.drop_last(), key, sets, values)
    } else {
        &&& sets.len() > 0
        &&& values.len() > 0
        &&& sets.last() == sql::quoted(cells.last().0) + " = ?"@
        &&& values.last() == staging::json_stored(cells.last().1)
        &&& are_set(cells.drop_last(), key, sets.drop_last(), values.drop_last())
    }
}

proof fn lemma_set_cells(cells: Seq<(Seq<char>, JsonModel)>, key: Seq<char>)
    ensures
        are_set(cells, key, undo::cell_sets(cells, key), undo::cell_values(cells, key)),
        undo::cell_sets(cells, key).len() == undo::cell_values(cells, key).len(),
    decreases cells.len(),
{
    if cells.len() > 0 {
        let d = cells.drop_last();
        lemma_set_cells(d, key);
        if cells.last().0 != key {
            assert(undo::cell_sets(cells, key).drop_last() =~= undo::cell_sets(d, key));
            assert(undo::cell_values(cells, key).drop_last() =~= undo::cell_values(d, key));
        }
    }
}

/// A row is changed back in all its cells but its key, and found by its key; a row is put
/// in with all its cells.
pub proof fn law_rows_are_replayed(
    table: Seq<char>,
    key: Seq<char>,
    pk: Seq<char>,
    cells: Seq<(Seq<char>, JsonModel)>,
    i: int,
)
    ensures
        ({
            let sets = undo::cell_sets(cells, key);
            let n = sets.len() as int;
            &&& undo::update_cells(table, key, pk, cells) is None <==> n == 0
            &&& undo::update_cells(table, key, pk, cells) matches Some(s) ==> {
                &&& s.params.len() == n + 1
                &&& s.params[n] == SqlModel::Text(pk)
                &&& are_set(cells, key, sets, s.params.drop_last())
            }
        }),
        0 <= i < cells.len() ==> {
            let s = undo::insert_cells(table, cells);
            s.params.len() == cells.len() && s.params[i] == staging::json_stored(cells[i].1)
        },
{
    lemma_set_cells(cells, key);
    if undo::update_cells(table, key, pk, cells) is Some {
        let s = undo::update_cells(table, key, pk, cells)->0;
        assert(s.params.drop_last() =~= undo::cell_values(cells, key));
    }
}

// ---------------------------------------------------------------------------
// Attached databases
// ---------------------------------------------------------------------------

/// The attached databases are all that the connection lists but the main and the temporary
/// one, in order.
pub proof fn law_attached_databases_are_listed(
    a: Seq<(Seq<char>, Seq<char>)>,
    b: Seq<(Seq<char>, Seq<char>)>,
)
    ensures
        cross_db::attached_of(a + b) == cross_db::attached_of(a) + cross_db::attached_of(b),
        b.len() == 1 ==> cross_db::attached_of(b) == (if b[0].0 == "main"@ || b[0].0 == "temp"@ {
            Seq::empty()
        } else {
            b
        }),
    decreases b.len(),
{
    if b.len() == 0 {
        assert(a + b =~= a);
        assert(cross_db::attached_of(a) + cross_db::attached_of(b) =~= cross_db::attached_of(a));
    } else {
        assert((a + b).drop_last() =~= a + b.drop_last());
        assert((a + b).last() == b.last());
        law_attached_databases_are_listed(a, b.drop_last());
        assert(cross_db::attached_of(a + b) =~= cross_db::attached_of(a) + cross_db::attached_of(
            b,
        ));
        reveal_with_fuel(cross_db::attached_of, 2);
        if b.len() == 1 && b[0].0 != "main"@ && b[0].0 != "temp"@ {
            assert(cross_db::attached_of(b) =~= b);
        }
    }
}

// ---------------------------------------------------------------------------
// Staging tables
// ---------------------------------------------------------------------------

/// The definition of a staging table has its key first and a line for each of its columns.
pub proof fn law_staging_table_has_columns(t: TableModel, i: int)
    requires
        0 <= i < t.columns.len(),
    ensures
        ({
            let lines = staging_ddl::staging_lines(t);
            &&& lines[0] == "    \""@ + t.pk_strategy.key_column() + "\" "@
                + t.pk_strategy.key_type() + " PRIMARY KEY"@
            &&& lines.contains("    \""@ + t.columns[i].name + "\" "@ + t.columns[i].sqlite_type)
            &&& t.has_file_id ==> lines.contains("    _file_id INTEGER"@)
            &&& t.pk_strategy != PkStrategy::Rowid ==> lines.contains("    \"_SourceID\" INTEGER"@)
        }),
{
    let lines = staging_ddl::staging_lines(t);
    let file = if t.has_file_id {
        1int
    } else {
        0int
    };
    let source = if t.pk_strategy == PkStrategy::Rowid {
        0int
    } else {
        1int
    };
    assert(lines[1 + file + source + i] == ddl::column_line(t.columns[i]));
    if t.has_file_id {
        assert(lines[1] == "    _file_id INTEGER"@);
    }
    if t.pk_strategy != PkStrategy::Rowid {
        assert(lines[1 + file] == "    \"_SourceID\" INTEGER"@);
    }
}

/// Every table that holds identifiers which are not its key has an index that keeps them
/// apart, and no other table has one.
pub proof fn law_identifiers_are_kept_apart(tables: Seq<(Seq<char>, TableModel)>, i: int)
    requires
        0 <= i < tables.len(),
    ensures
        tables[i].1.pk_strategy != PkStrategy::Uuid && (exists|c: int|
            0 <= c < tables[i].1.columns.len() && (#[trigger] tables[i].1.columns[c]).name
                == "UUID"@) ==> staging_ddl::uuid_indexes(tables).contains(
            "CREATE UNIQUE INDEX IF NOT EXISTS \"uq_"@ + tables[i].0 + "_UUID\" ON \""@
                + tables[i].0 + "\"(\"UUID\")"@,
        ),
        staging_ddl::uuid_indexes(tables).len() <= tables.len(),
    decreases tables.len(),
{
    let d = tables.drop_last();
    let before = staging_ddl::uuid_indexes(d);
    let r = staging_ddl::uuid_indexes(tables);
    let t = tables[i];
    let x = "CREATE UNIQUE INDEX IF NOT EXISTS \"uq_"@ + t.0 + "_UUID\" ON \""@ + t.0
        + "\"(\"UUID\")"@;
    if d.len() > 0 {
        law_identifiers_are_kept_apart(d, 0);
    }
    if i < d.len() {
        assert(d[i] == tables[i]);
        law_identifiers_are_kept_apart(d, i);
        if before.contains(x) {
            let at = choose|at: int| 0 <= at < before.len() && before[at] == x;
            assert(r[at] == x);
        }
    } else if t.1.pk_strategy != PkStrategy::Uuid && ddl::lists_column(t.1.columns, "UUID"@) {
        assert(r[r.len() - 1] == x);
    }
}

/// Every column of every staging table has its types noted; a game type that is empty is
/// noted as none.
pub proof fn law_staging_types_are_noted(
    tables: Seq<(Seq<char>, TableModel)>,
    i: int,
    c: int,
)
    requires
        0 <= i < tables.len(),
        0 <= c < tables[i].1.columns.len(),
    ensures
        ({
            let t = tables[i];
            let column = t.1.columns[c];
            effect_laws::writes(
                sql::statements_of(tables, staging_ddl::staging_type_rows()),
                "Insert column_types "@ + t.0 + "."@ + column.name,
                seq![
                    SqlModel::Text(t.0),
                    SqlModel::Text(column.name),
                    if column.bg3_type.len() > 0 {
                        SqlModel::Text(column.bg3_type)
                    } else {
                        SqlModel::Null
                    },
                    SqlModel::Text(column.sqlite_type),
                ],
            )
        }),
{
    let t = tables[i];
    let f = staging_ddl::column_rows(t.0);
    let one = f(t.1.columns[c])[0];
    assert(f(t.1.columns[c]) =~= seq![one]);
    assert(seq![one][0] == one);
    assert(effect_laws::writes(seq![one], one.what, one.params));
    effect_laws::lemma_writes_part(t.1.columns, f, c, one.what, one.params);
    let key = seq![
        staging_ddl::type_row(t.0, t.1.pk_strategy.key_column(), None, t.1.pk_strategy.key_type()),
    ];
    let data = sql::statements_of(t.1.columns, f);
    let tracking = seq![
        staging_ddl::type_row(t.0, "_is_modified"@, None, "INTEGER"@),
        staging_ddl::type_row(t.0, "_is_new"@, None, "INTEGER"@),
        staging_ddl::type_row(t.0, "_is_deleted"@, None, "INTEGER"@),
    ];
    effect_laws::lemma_writes_first(key, data, one.what, one.params);
    effect_laws::lemma_writes_first(key + data, tracking, one.what, one.params);
    assert(staging_ddl::staging_type_rows()(t) =~= key + data + tracking);
    effect_laws::lemma_writes_part(
        tables,
        staging_ddl::staging_type_rows(),
        i,
        one.what,
        one.params,
    );
}

proof fn lemma_upgrades(present: Seq<Seq<char>>, n: int, i: int)
    requires
        0 <= i < n <= staging_ddl::authoring_columns().len(),
    ensures
        ({
            let c = staging_ddl::authoring_columns()[i];
            !present.contains(c.0) ==> staging_ddl::authoring_upgrades(present, n).contains(
                "ALTER TABLE _staging_authoring ADD COLUMN \""@ + c.0 + "\" "@ + c.1,
            )
        }),
        staging_ddl::authoring_upgrades(present, n).len() <= n,
        (forall|k: int|
            0 <= k < n ==> present.contains((#[trigger] staging_ddl::authoring_columns()[k]).0))
            ==> staging_ddl::authoring_upgrades(present, n).len() == 0,
    decreases n,
{
    let before = staging_ddl::authoring_upgrades(present, n - 1);
    let r = staging_ddl::authoring_upgrades(present, n);
    let c = staging_ddl::authoring_columns()[i];
    let x = "ALTER TABLE _staging_authoring ADD COLUMN \""@ + c.0 + "\" "@ + c.1;
    if n > 1 {
        lemma_upgrades(present, n - 1, 0);
    }
    if i < n - 1 {
        lemma_upgrades(present, n - 1, i);
        if before.contains(x) {
            let at = choose|at: int| 0 <= at < before.len() && before[at] == x;
            assert(r[at] == x);
        }
    } else if !present.contains(c.0) {
        assert(r[r.len() - 1] == x);
    }
}

/// A table of notes gets each column that it lacks, and nothing where it lacks none.
pub proof fn law_missing_columns_are_added(present: Seq<Seq<char>>, i: int)
    requires
        0 <= i < 4,
    ensures
        ({
            let all = staging_ddl::authoring_columns();
            let r = staging_ddl::authoring_upgrades(present, all.len() as int);
            &&& all.len() == 4
            &&& !present.contains(all[i].0) ==> r.contains(
                "ALTER TABLE _staging_authoring ADD COLUMN \""@ + all[i].0 + "\" "@ + all[i].1,
            )
            &&& (forall|k: int| 0 <= k < 4 ==> present.contains((#[trigger] all[k]).0)) ==> r.len()
                == 0
        }),
{
    lemma_upgrades(present, 4, i);
}

/// The definition of a staging junction has the types of the keys that it links.
pub proof fn law_staging_junction_has_keys(j: JunctionModel)
    ensures
        ({
            let head = "CREATE TABLE IF NOT EXISTS \""@ + j.table_name + "\" (\n    parent_id "@
                + j.parent_pk_type + " NOT NULL,\n    child_id "@ + j.child_pk_type;
            head.is_prefix_of(staging_ddl::staging_junction_ddl(j))
        }),
{
    let head = "CREATE TABLE IF NOT EXISTS \""@ + j.table_name + "\" (\n    parent_id "@
        + j.parent_pk_type + " NOT NULL,\n    child_id "@ + j.child_pk_type;
    let s = staging_ddl::staging_junction_ddl(j);
    assert(head =~= s.subrange(0, head.len() as int));
}

} // verus!
