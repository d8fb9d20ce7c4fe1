//! What edits do to the rows of a staging database, and what is recorded of them.

use vstd::prelude::*;
use crate::ddl;
use crate::schema::{ColumnModel, PkStrategy, SchemaModel, TableModel};
use crate::staging;
use crate::staging::{JsonModel, UpsertModel};
use crate::textmap;
use crate::types::SqlModel;
use crate::undo;
use crate::undo::{EntryModel, Rows};

verus! {

// ---------------------------------------------------------------------------
// Rows
// ---------------------------------------------------------------------------

/// A row: the value of each column.
pub type Row = Map<Seq<char>, SqlModel>;

/// What a column of a table makes of a value that is written to it, such as the
/// number that a text denotes.
pub type Keeping = spec_fn(Seq<char>, Seq<char>, SqlModel) -> SqlModel;

/// The row of a table before anything is written to it: the marks are not set, and
/// nothing else is there.
pub open spec fn blank_row(t: TableModel) -> Row {
    Map::new(
        |c: Seq<char>| staging::table_has(t, c),
        |c: Seq<char>|
            if staging::marks_edit(c) {
                SqlModel::Integer(0)
            } else {
                SqlModel::Null
            },
    )
}

/// The values that texts give to columns.
pub open spec fn text_cells(
    table: Seq<char>,
    columns: Seq<(Seq<char>, Seq<char>)>,
    keep: Keeping,
) -> Row
    decreases columns.len(),
{
    if columns.len() == 0 {
        Map::empty()
    } else {
        text_cells(table, columns.drop_last(), keep).insert(
            columns.last().0,
            keep(table, columns.last().0, SqlModel::Text(columns.last().1)),
        )
    }
}

/// Whether the rows of tables of a schema have all columns of their table.
pub open spec fn rows_fit(schema: SchemaModel, rows: Rows) -> bool {
    forall|k: (Seq<char>, Seq<char>), c: Seq<char>|
        rows.dom().contains(k) && textmap::has_key(schema.tables, k.0) && staging::table_has(
            textmap::value_of(schema.tables, k.0)->0,
            c,
        ) ==> #[trigger] rows[k].dom().contains(c)
}

/// Of a row that is there, whether it is new.
pub open spec fn found_new(rows: Rows, key: (Seq<char>, Seq<char>)) -> Option<bool> {
    if rows.dom().contains(key) {
        Some(rows[key]["_is_new"@] == SqlModel::Integer(1))
    } else {
        None
    }
}

// ---------------------------------------------------------------------------
// Edits
// ---------------------------------------------------------------------------

/// An edit of a row.
pub enum EditModel {
    /// The row is changed where it is there, and added otherwise.
    Upsert {
        table: Seq<char>,
        columns: Seq<(Seq<char>, Seq<char>)>,
        is_new: bool,
        next_id: i64,
    },
    /// The row is taken out where it is new, and marked otherwise.
    Delete { table: Seq<char>, pk: Seq<char> },
    /// The mark is taken off the row.
    Undelete { table: Seq<char>, pk: Seq<char> },
}

/// The row that an edit writes.
pub open spec fn written(schema: SchemaModel, edit: EditModel) -> UpsertModel
    recommends
        edit is Upsert,
{
    staging::planned(
        schema,
        edit->Upsert_table,
        edit->columns,
        edit->is_new,
        edit->next_id,
    )->Ok_0
}

/// Whether an edit is of a table of the schema and, where it writes a row, gives
/// its key.
pub open spec fn can_edit(schema: SchemaModel, edit: EditModel) -> bool {
    match edit {
        EditModel::Upsert { table, columns, is_new, next_id } => staging::planned(
            schema,
            table,
            columns,
            is_new,
            next_id,
        ) is Ok,
        EditModel::Delete { table, pk } => textmap::has_key(schema.tables, table),
        EditModel::Undelete { table, pk } => textmap::has_key(schema.tables, table),
    }
}

/// The table and the key of the row that is edited.
pub open spec fn edited_key(schema: SchemaModel, edit: EditModel) -> (Seq<char>, Seq<char>) {
    match edit {
        EditModel::Upsert { table, columns, is_new, next_id } => (
            table,
            written(schema, edit).pk_value,
        ),
        EditModel::Delete { table, pk } => (table, pk),
        EditModel::Undelete { table, pk } => (table, pk),
    }
}

/// Whether an edit touches a row: only an upsert adds one that is not there.
pub open spec fn touches(schema: SchemaModel, rows: Rows, edit: EditModel) -> bool {
    edit is Upsert || rows.dom().contains(edited_key(schema, edit))
}

/// A row after it is changed: it has the values that are given, keeps its key, and
/// stays new or is modified.
pub open spec fn changed_row(row: Row, p: UpsertModel, was_new: bool, keep: Keeping) -> Row {
    row.union_prefer_right(text_cells(p.table, p.columns, keep).remove(p.pk_column)).insert(
        if was_new {
            "_is_new"@
        } else {
            "_is_modified"@
        },
        SqlModel::Integer(1),
    )
}

/// A row that is added: it has the values that are given, and is new or modified.
pub open spec fn added_row(t: TableModel, p: UpsertModel, is_new: bool, keep: Keeping) -> Row {
    let number = |b: bool|
        if b {
            SqlModel::Integer(1)
        } else {
            SqlModel::Integer(0)
        };
    blank_row(t).union_prefer_right(text_cells(p.table, p.columns, keep)).insert(
        "_is_new"@,
        number(is_new),
    ).insert("_is_modified"@, number(!is_new))
}

/// The rows after the statement of `staging_upsert_row`, of `staging_mark_deleted` or
/// of `staging_unmark_deleted`.
pub open spec fn after_edit(
    schema: SchemaModel,
    rows: Rows,
    edit: EditModel,
    keep: Keeping,
) -> Rows {
    let key = edited_key(schema, edit);
    match edit {
        EditModel::Upsert { table, columns, is_new, next_id } => match found_new(rows, key) {
            Some(was_new) => rows.insert(
                key,
                changed_row(rows[key], written(schema, edit), was_new, keep),
            ),
            None => rows.insert(
                key,
                added_row(
                    textmap::value_of(schema.tables, table)->0,
                    written(schema, edit),
                    is_new,
                    keep,
                ),
            ),
        },
        EditModel::Delete { table, pk } => match found_new(rows, key) {
            Some(is_new) => if is_new {
                rows.remove(key)
            } else {
                rows.insert(key, rows[key].insert("_is_deleted"@, SqlModel::Integer(1)))
            },
            None => rows,
        },
        EditModel::Undelete { table, pk } => if rows.dom().contains(key) {
            rows.insert(key, rows[key].insert("_is_deleted"@, SqlModel::Integer(0)))
        } else {
            rows
        },
    }
}

/// Whether a text is what `capture_row_as_json` gives of the row of a key: none where
/// there is no such row.
pub open spec fn captured(json: Option<Seq<char>>, rows: Rows, key: (Seq<char>, Seq<char>)) -> bool {
    match json {
        Some(s) => rows.dom().contains(key) && undo::keeps_row(s, rows[key]),
        None => !rows.dom().contains(key),
    }
}

/// Whether an entry of the journal is made of the key of an edit and of the texts of
/// its row before and after it.
pub open spec fn entry_of(
    schema: SchemaModel,
    e: EntryModel,
    edit: EditModel,
    before: Rows,
    after: Rows,
) -> bool {
    let key = edited_key(schema, edit);
    &&& e.table_name == key.0
    &&& e.pk_value == key.1
    &&& captured(e.old_row, before, key)
    &&& captured(e.new_row, after, key)
}

proof fn lemma_key_is_no_mark(pk: PkStrategy)
    ensures
        !staging::marks_edit(pk.key_column()),
{
    reveal_strlit("UUID");
    reveal_strlit("MapKey");
    reveal_strlit("ID");
    reveal_strlit("_entry_name");
    reveal_strlit("contentuid");
    reveal_strlit("_row_id");
    reveal_strlit("_is_new");
    reveal_strlit("_is_modified");
    reveal_strlit("_is_deleted");
    assert("_is_new"@.len() == 7 && "_is_modified"@.len() == 12 && "_is_deleted"@.len() == 11);
    assert("UUID"@.len() == 4 && "MapKey"@.len() == 6 && "ID"@.len() == 2);
    assert("_entry_name"@.len() == 11 && "_entry_name"@[1] == 'e');
    assert("contentuid"@.len() == 10);
    assert("_row_id"@.len() == 7 && "_row_id"@[1] == 'r');
    assert("_is_new"@[1] == 'i' && "_is_deleted"@[1] == 'i');
}

proof fn lemma_text_cells(
    table: Seq<char>,
    columns: Seq<(Seq<char>, Seq<char>)>,
    keep: Keeping,
    c: Seq<char>,
)
    ensures
        text_cells(table, columns, keep).dom().contains(c) ==> exists|i: int|
            0 <= i < columns.len() && (#[trigger] columns[i]).0 == c,
    decreases columns.len(),
{
    if columns.len() > 0 {
        let d = columns.drop_last();
        lemma_text_cells(table, d, keep, c);
        if text_cells(table, columns, keep).dom().contains(c) {
            if c == columns.last().0 {
                assert(columns[columns.len() - 1].0 == c);
            } else {
                let i = choose|i: int| 0 <= i < d.len() && (#[trigger] d[i]).0 == c;
                assert(columns[i].0 == c);
            }
        }
    }
}

proof fn lemma_known_columns(columns: Seq<(Seq<char>, Seq<char>)>, t: TableModel)
    ensures
        forall|i: int|
            0 <= i < staging::known_columns(columns, t).len() ==> ddl::has_column(
                t,
                (#[trigger] staging::known_columns(columns, t)[i]).0,
            ),
    decreases columns.len(),
{
    if columns.len() > 0 {
        lemma_known_columns(columns.drop_last(), t);
        let before = staging::known_columns(columns.drop_last(), t);
        let r = staging::known_columns(columns, t);
        assert forall|i: int| 0 <= i < r.len() implies ddl::has_column(t, (#[trigger] r[i]).0) by {
            if i < before.len() {
                assert(r[i] == before[i]);
            }
        }
    }
}

proof fn lemma_written_columns(schema: SchemaModel, edit: EditModel)
    requires
        edit is Upsert,
        can_edit(schema, edit),
    ensures
        ({
            let t = textmap::value_of(schema.tables, edit->Upsert_table)->0;
            let p = written(schema, edit);
            &&& textmap::has_key(schema.tables, edit->Upsert_table)
            &&& p.table == edit->Upsert_table
            &&& p.pk_column == t.pk_strategy.key_column()
            &&& forall|i: int|
                0 <= i < p.columns.len() ==> ddl::has_column(t, (#[trigger] p.columns[i]).0)
        }),
{
    let table = edit->Upsert_table;
    let t = textmap::value_of(schema.tables, table)->0;
    let p = written(schema, edit);
    let known = staging::known_columns(edit->columns, t);
    lemma_known_columns(edit->columns, t);
    textmap::lemma_key_pos(known, "_row_id"@);
    assert forall|i: int| 0 <= i < p.columns.len() implies ddl::has_column(
        t,
        (#[trigger] p.columns[i]).0,
    ) by {
        if staging::needs_row_id(schema, table, edit->columns, edit->is_new) {
            if i < known.len() && p.columns[i] == known[i] {
                assert(ddl::has_column(t, known[i].0));
            } else {
                assert(p.columns[i].0 == "_row_id"@);
            }
        } else {
            assert(p.columns[i] == known[i]);
        }
    }
}

/// The entry that an edit leaves in the journal, made of the texts of its row before
/// and after it, records the edit; and the rows still have the columns of their
/// tables.
pub proof fn law_edit_is_recorded(
    schema: SchemaModel,
    rows: Rows,
    edit: EditModel,
    keep: Keeping,
    e: EntryModel,
)
    requires
        rows_fit(schema, rows),
        can_edit(schema, edit),
        touches(schema, rows, edit),
        entry_of(schema, e, edit, rows, after_edit(schema, rows, edit, keep)),
    ensures
        undo::records(
            e,
            undo::replay_key(schema, e.table_name),
            rows,
            after_edit(schema, rows, edit, keep),
        ),
        undo::holds_rows(e),
        rows_fit(schema, after_edit(schema, rows, edit, keep)),
{
    let key = edited_key(schema, edit);
    let after = after_edit(schema, rows, edit, keep);
    let t = textmap::value_of(schema.tables, key.0)->0;
    let pk = t.pk_strategy.key_column();
    lemma_key_is_no_mark(t.pk_strategy);
    if edit is Upsert {
        lemma_written_columns(schema, edit);
    }
    assert(textmap::has_key(schema.tables, key.0));
    assert(undo::replay_key(schema, key.0) == pk);
    assert(staging::table_has(t, pk));
    assert(staging::table_has(t, "_is_new"@));
    assert(staging::table_has(t, "_is_modified"@));
    assert(staging::table_has(t, "_is_deleted"@));
    assert(rows.remove(key) =~= after.remove(key));
    if rows.dom().contains(key) {
        assert(rows[key].dom().contains(pk));
        assert(rows[key].dom().contains("_is_new"@));
        assert(rows[key].dom().contains("_is_modified"@));
        assert(rows[key].dom().contains("_is_deleted"@));
    }
    if edit is Upsert {
        let p = written(schema, edit);
        let cells = text_cells(p.table, p.columns, keep);
        assert forall|c: Seq<char>| #[trigger] cells.dom().contains(c) implies staging::table_has(
            t,
            c,
        ) by {
            lemma_text_cells(p.table, p.columns, keep, c);
            let i = choose|i: int| 0 <= i < p.columns.len() && (#[trigger] p.columns[i]).0 == c;
            assert(ddl::has_column(t, p.columns[i].0));
        }
        if rows.dom().contains(key) {
            assert forall|c: Seq<char>| #[trigger] cells.dom().contains(c) implies rows[key].dom().contains(c) by {
                assert(staging::table_has(t, c));
            }
            assert(after[key].dom() =~= rows[key].dom());
            assert(after[key][pk] == rows[key][pk]);
        }
    } else if after.dom().contains(key) {
        assert(after[key].dom() =~= rows[key].dom());
        assert(after[key][pk] == rows[key][pk]);
    }
    assert forall|k: (Seq<char>, Seq<char>), c: Seq<char>|
        after.dom().contains(k) && textmap::has_key(schema.tables, k.0) && staging::table_has(
            textmap::value_of(schema.tables, k.0)->0,
            c,
        ) implies #[trigger] after[k].dom().contains(c) by {
        if k != key {
            assert(after[k] == rows[k]);
            assert(rows[k].dom().contains(c));
        } else if rows.dom().contains(key) {
            assert(rows[k].dom().contains(c));
        } else {
            assert(blank_row(t).dom().contains(c));
        }
    }
}

/// An edit that touches no row changes nothing.
pub proof fn law_untouched_rows_stay(
    schema: SchemaModel,
    rows: Rows,
    edit: EditModel,
    keep: Keeping,
)
    requires
        !touches(schema, rows, edit),
    ensures
        after_edit(schema, rows, edit, keep) == rows,
{
}

/// Whether edits, one after another, took the rows from the first state to the last,
/// and left the given entries in the journal.
pub open spec fn edits_made(
    schema: SchemaModel,
    edits: Seq<EditModel>,
    entries: Seq<EntryModel>,
    states: Seq<Rows>,
    keep: Keeping,
) -> bool {
    &&& entries.len() == edits.len()
    &&& states.len() == edits.len() + 1
    &&& rows_fit(schema, states[0])
    &&& forall|i: int|
        0 <= i < edits.len() ==> {
            &&& can_edit(schema, #[trigger] edits[i])
            &&& touches(schema, states[i], edits[i])
            &&& states[i + 1] == after_edit(schema, states[i], edits[i], keep)
            &&& entry_of(schema, entries[i], edits[i], states[i], states[i + 1])
        }
}

proof fn lemma_edit_recorded_at(
    schema: SchemaModel,
    edits: Seq<EditModel>,
    entries: Seq<EntryModel>,
    states: Seq<Rows>,
    keep: Keeping,
    n: int,
)
    requires
        edits_made(schema, edits, entries, states, keep),
        0 <= n <= edits.len(),
    ensures
        rows_fit(schema, states[n]),
        forall|i: int|
            0 <= i < n ==> undo::holds_rows(#[trigger] entries[i]) && undo::records(
                entries[i],
                undo::replay_key(schema, entries[i].table_name),
                states[i],
                states[i + 1],
            ),
    decreases n,
{
    if n > 0 {
        lemma_edit_recorded_at(schema, edits, entries, states, keep, n - 1);
        assert(can_edit(schema, edits[n - 1]));
        law_edit_is_recorded(schema, states[n - 1], edits[n - 1], keep, entries[n - 1]);
    }
}

/// Upserts, deletions and undeletions leave entries in the journal that record what
/// they did.
pub proof fn law_edits_are_recorded(
    schema: SchemaModel,
    edits: Seq<EditModel>,
    entries: Seq<EntryModel>,
    states: Seq<Rows>,
    keep: Keeping,
)
    requires
        edits_made(schema, edits, entries, states, keep),
    ensures
        undo::records_all(schema, entries, states),
        forall|i: int| 0 <= i < entries.len() ==> undo::holds_rows(#[trigger] entries[i]),
{
    lemma_edit_recorded_at(schema, edits, entries, states, keep, edits.len() as int);
}

/// An undo brings back all rows as they were before the edits of its group, and a redo
/// then brings back all rows as they were after them. Both go through and name each
/// edit: the undo the last one first, the redo in their order.
pub proof fn law_undo_and_redo_edits(
    schema: SchemaModel,
    journal: Seq<EntryModel>,
    pointer: int,
    edits: Seq<EditModel>,
    states: Seq<Rows>,
    keep: Keeping,
)
    requires
        pointer > 0,
        exists|i: int|
            0 <= i < journal.len() && undo::is_boundary(#[trigger] journal[i]) && journal[i].id
                == pointer,
        edits_made(
            schema,
            edits,
            undo::edits_between(journal, undo::place_below(journal, pointer), pointer),
            states,
            keep,
        ),
    ensures
        ({
            let last = states[edits.len() as int];
            let back = undo::undone(journal, pointer);
            let forth = undo::redone(journal, undo::place_below(journal, pointer));
            &&& undo::after_undos(schema, last, back) == states[0]
            &&& undo::after_redos(schema, states[0], forth) == last
            &&& forth == back.reverse()
            &&& undo::boundary_above(journal, undo::place_below(journal, pointer)) == Some(
                pointer,
            )
            &&& undo::script_of(schema, back, true).failure is None
            &&& undo::script_of(schema, back, true).replayed.len() == edits.len()
            &&& undo::script_of(schema, forth, false).failure is None
            &&& undo::script_of(schema, forth, false).replayed.len() == edits.len()
        }),
{
    let entries = undo::edits_between(journal, undo::place_below(journal, pointer), pointer);
    law_edits_are_recorded(schema, edits, entries, states, keep);
    undo::law_undo_restores_rows(schema, entries, states);
    undo::law_redo_restores_rows(schema, entries, states);
    undo::law_redo_follows_undo(journal, pointer);
    assert(entries.reverse().reverse() =~= entries);
    assert forall|i: int| 0 <= i < entries.reverse().len() implies undo::holds_rows(
        #[trigger] entries.reverse()[i],
    ) by {
        assert(entries.reverse()[i] == entries[entries.len() - 1 - i]);
    }
    undo::law_replay_names_edits(schema, entries.reverse(), true);
    undo::law_replay_names_edits(schema, entries, false);
}

// ---------------------------------------------------------------------------
// Replacing a section
// ---------------------------------------------------------------------------

/// The rows of all tables but one.
pub open spec fn without_table(rows: Rows, table: Seq<char>) -> Rows {
    Map::new(
        |k: (Seq<char>, Seq<char>)| rows.dom().contains(k) && k.0 != table,
        |k: (Seq<char>, Seq<char>)| rows[k],
    )
}

/// The rows of a table.
pub open spec fn only_table(rows: Rows, table: Seq<char>) -> Rows {
    Map::new(
        |k: (Seq<char>, Seq<char>)| rows.dom().contains(k) && k.0 == table,
        |k: (Seq<char>, Seq<char>)| rows[k],
    )
}

/// The key of a row that is put back.
pub open spec fn given_key(t: TableModel, row: Seq<(Seq<char>, JsonModel)>) -> Seq<char> {
    staging::plain_text(textmap::value_of(row, t.pk_strategy.key_column())->0)
}

/// A row that is put back, in the given columns.
pub open spec fn restored_row(
    table: Seq<char>,
    t: TableModel,
    columns: Seq<Seq<char>>,
    row: Seq<(Seq<char>, JsonModel)>,
    keep: Keeping,
) -> Row {
    blank_row(t).union_prefer_right(
        Map::new(
            |c: Seq<char>| columns.contains(c),
            |c: Seq<char>| keep(table, c, staging::row_cell(row, c)),
        ),
    )
}

/// The rows after some are put back.
pub open spec fn after_restores(
    rows: Rows,
    table: Seq<char>,
    t: TableModel,
    columns: Seq<Seq<char>>,
    given: Seq<Seq<(Seq<char>, JsonModel)>>,
    keep: Keeping,
) -> Rows
    decreases given.len(),
{
    if given.len() == 0 {
        rows
    } else {
        after_restores(rows, table, t, columns, given.drop_last(), keep).insert(
            (table, given_key(t, given.last())),
            restored_row(table, t, columns, given.last(), keep),
        )
    }
}

/// The rows after the statements of `staging_replace_section`: all rows of the table
/// are taken out, and the given ones are put in.
pub open spec fn after_replacement(
    rows: Rows,
    table: Seq<char>,
    t: TableModel,
    given: Seq<Seq<(Seq<char>, JsonModel)>>,
    keep: Keeping,
) -> Rows {
    after_restores(
        without_table(rows, table),
        table,
        t,
        staging::restored_columns(t, given[0]),
        given,
        keep,
    )
}

/// Whether rows are given as `staging_query_section` gives all rows of a table: each
/// once, with its key and all its columns.
pub open spec fn lists_section(
    rows: Rows,
    table: Seq<char>,
    t: TableModel,
    given: Seq<Seq<(Seq<char>, JsonModel)>>,
) -> bool {
    &&& forall|i: int|
        0 <= i < given.len() ==> {
            &&& textmap::distinct(#[trigger] given[i])
            &&& textmap::has_key(given[i], t.pk_strategy.key_column())
            &&& rows.dom().contains((table, given_key(t, given[i])))
            &&& rows[(table, given_key(t, given[i]))] == undo::row_of(given[i])
        }
    &&& forall|i: int, j: int|
        0 <= i < j < given.len() ==> given_key(t, #[trigger] given[i]) != given_key(
            t,
            #[trigger] given[j],
        )
    &&& forall|k: Seq<char>| #[trigger]
        rows.dom().contains((table, k)) ==> exists|i: int|
            0 <= i < given.len() && given_key(t, #[trigger] given[i]) == k
}

/// Whether the rows of a table have its columns and no others, and a value that is
/// there stays as it is when it is written again.
pub open spec fn holds_table(rows: Rows, table: Seq<char>, t: TableModel, keep: Keeping) -> bool {
    forall|k: Seq<char>, c: Seq<char>|
        rows.dom().contains((table, k)) ==> {
            &&& (#[trigger] rows[(table, k)].dom().contains(c)) == staging::table_has(t, c)
            &&& rows[(table, k)].dom().contains(c) ==> keep(table, c, rows[(table, k)][c])
                == rows[(table, k)][c]
        }
}

proof fn lemma_shared_data_in(
    columns: Seq<ColumnModel>,
    start: Seq<Seq<char>>,
    row: Seq<(Seq<char>, JsonModel)>,
)
    requires
        forall|c: Seq<char>| #[trigger] start.contains(c) ==> textmap::has_key(row, c),
    ensures
        forall|c: Seq<char>| #[trigger]
            staging::with_shared_data(start, columns, row).contains(c) ==> textmap::has_key(row, c),
    decreases columns.len(),
{
    if columns.len() > 0 {
        lemma_shared_data_in(columns.drop_last(), start, row);
        lemma_shared_in(
            staging::with_shared_data(start, columns.drop_last(), row),
            row,
            columns.last().name,
        );
    }
}

proof fn lemma_shared_in(
    columns: Seq<Seq<char>>,
    row: Seq<(Seq<char>, JsonModel)>,
    name: Seq<char>,
)
    requires
        forall|c: Seq<char>| #[trigger] columns.contains(c) ==> textmap::has_key(row, c),
    ensures
        forall|c: Seq<char>| #[trigger]
            staging::with_shared(columns, row, name).contains(c) ==> textmap::has_key(row, c),
{
    let r = staging::with_shared(columns, row, name);
    assert forall|c: Seq<char>| #[trigger] r.contains(c) implies textmap::has_key(row, c) by {
        let i = choose|i: int| 0 <= i < r.len() && r[i] == c;
        if i < columns.len() {
            assert(columns[i] == c);
            assert(columns.contains(c));
        }
    }
}

proof fn lemma_columns_of_first(t: TableModel, first: Seq<(Seq<char>, JsonModel)>)
    ensures
        forall|c: Seq<char>| #[trigger]
            staging::restored_columns(t, first).contains(c) ==> textmap::has_key(first, c),
{
    let empty = Seq::<Seq<char>>::empty();
    let key = staging::with_shared(empty, first, t.pk_strategy.key_column());
    let file = staging::with_shared(key, first, "_file_id"@);
    let source = staging::with_shared(file, first, "_SourceID"@);
    let data = staging::with_shared_data(source, t.columns, first);
    let new = staging::with_shared(data, first, "_is_new"@);
    let modified = staging::with_shared(new, first, "_is_modified"@);
    lemma_shared_in(empty, first, t.pk_strategy.key_column());
    lemma_shared_in(key, first, "_file_id"@);
    lemma_shared_in(file, first, "_SourceID"@);
    lemma_shared_data_in(t.columns, source, first);
    lemma_shared_in(data, first, "_is_new"@);
    lemma_shared_in(new, first, "_is_modified"@);
    lemma_shared_in(modified, first, "_is_deleted"@);
}

proof fn lemma_row_put_back(
    earlier: Rows,
    table: Seq<char>,
    t: TableModel,
    given: Seq<Seq<(Seq<char>, JsonModel)>>,
    keep: Keeping,
    i: int,
)
    requires
        0 <= i < given.len(),
        lists_section(earlier, table, t, given),
        holds_table(earlier, table, t, keep),
    ensures
        restored_row(table, t, staging::restored_columns(t, given[0]), given[i], keep)
            == earlier[(table, given_key(t, given[i]))],
{
    let first = given[0];
    let columns = staging::restored_columns(t, first);
    let k = given_key(t, given[i]);
    let was = earlier[(table, k)];
    let r = restored_row(table, t, columns, given[i], keep);
    staging::law_rows_are_restored(table, t, given, i);
    lemma_columns_of_first(t, first);
    undo::lemma_row_of(first);
    undo::lemma_row_of(given[i]);
    let k0 = given_key(t, first);
    assert(textmap::distinct(given[i]));
    assert(textmap::distinct(given[0]));
    assert(earlier.dom().contains((table, k0)));
    assert(earlier.dom().contains((table, k)));
    assert forall|c: Seq<char>| #[trigger] r.dom().contains(c) == was.dom().contains(c) by {
        assert(earlier[(table, k)].dom().contains(c) == staging::table_has(t, c));
        assert(earlier[(table, k0)].dom().contains(c) == staging::table_has(t, c));
        assert(undo::row_of(first).dom().contains(c) == (textmap::value_of(first, c) is Some));
    }
    assert forall|c: Seq<char>| #[trigger] r.dom().contains(c) implies r[c] == was[c] by {
        assert(earlier[(table, k)].dom().contains(c) == staging::table_has(t, c));
        assert(earlier[(table, k0)].dom().contains(c) == staging::table_has(t, c));
        assert(undo::row_of(first).dom().contains(c) == (textmap::value_of(first, c) is Some));
        assert(undo::row_of(given[i]).dom().contains(c) == (textmap::value_of(given[i], c)
            is Some));
        assert(columns.contains(c));
        assert(staging::row_cell(given[i], c) == undo::row_of(given[i])[c]);
    }
    assert(r =~= was);
}

proof fn lemma_rows_put_back(
    rows: Rows,
    earlier: Rows,
    table: Seq<char>,
    t: TableModel,
    given: Seq<Seq<(Seq<char>, JsonModel)>>,
    keep: Keeping,
    n: int,
)
    requires
        0 <= n <= given.len(),
        lists_section(earlier, table, t, given),
        holds_table(earlier, table, t, keep),
    ensures
        ({
            let after = after_restores(
                without_table(rows, table),
                table,
                t,
                staging::restored_columns(t, given[0]),
                given.take(n),
                keep,
            );
            &&& forall|k: (Seq<char>, Seq<char>)| #[trigger]
                after.dom().contains(k) == if k.0 == table {
                    exists|i: int| 0 <= i < n && given_key(t, #[trigger] given[i]) == k.1
                } else {
                    rows.dom().contains(k)
                }
            &&& forall|k: (Seq<char>, Seq<char>)| #[trigger]
                after.dom().contains(k) ==> after[k] == if k.0 == table {
                    earlier[k]
                } else {
                    rows[k]
                }
        }),
    decreases n,
{
    let columns = staging::restored_columns(t, given[0]);
    let after = after_restores(
        without_table(rows, table),
        table,
        t,
        columns,
        given.take(n),
        keep,
    );
    if n > 0 {
        lemma_rows_put_back(rows, earlier, table, t, given, keep, n - 1);
        assert(given.take(n).drop_last() =~= given.take(n - 1));
        assert(given.take(n).last() == given[n - 1]);
        lemma_row_put_back(earlier, table, t, given, keep, n - 1);
        let before = after_restores(
            without_table(rows, table),
            table,
            t,
            columns,
            given.take(n - 1),
            keep,
        );
        let key = (table, given_key(t, given[n - 1]));
        assert(after == before.insert(key, earlier[key]));
        assert forall|k: (Seq<char>, Seq<char>)| #[trigger]
            after.dom().contains(k) == if k.0 == table {
                exists|i: int| 0 <= i < n && given_key(t, #[trigger] given[i]) == k.1
            } else {
                rows.dom().contains(k)
            } by {
            assert(before.dom().contains(k) == if k.0 == table {
                exists|i: int| 0 <= i < n - 1 && given_key(t, #[trigger] given[i]) == k.1
            } else {
                rows.dom().contains(k)
            });
            if k.0 == table && k.1 == key.1 {
                assert(k == key);
                assert(given_key(t, given[n - 1]) == k.1);
            }
        }
        assert forall|k: (Seq<char>, Seq<char>)| #[trigger]
            after.dom().contains(k) implies after[k] == if k.0 == table {
            earlier[k]
        } else {
            rows[k]
        } by {
            if k != key {
                assert(before.dom().contains(k));
            }
        }
    }
}

/// Replacing a section by the rows that it had at an earlier time gives back its rows
/// of that time, with their keys and marks, and leaves the rows of all other tables as
/// they are.
pub proof fn law_section_is_restored(
    rows: Rows,
    earlier: Rows,
    table: Seq<char>,
    t: TableModel,
    given: Seq<Seq<(Seq<char>, JsonModel)>>,
    keep: Keeping,
)
    requires
        lists_section(earlier, table, t, given),
        holds_table(earlier, table, t, keep),
    ensures
        ({
            let after = after_replacement(rows, table, t, given, keep);
            &&& only_table(after, table) == only_table(earlier, table)
            &&& without_table(after, table) == without_table(rows, table)
        }),
{
    let after = after_replacement(rows, table, t, given, keep);
    assert(given.take(given.len() as int) =~= given);
    lemma_rows_put_back(rows, earlier, table, t, given, keep, given.len() as int);
    assert forall|k: (Seq<char>, Seq<char>)| k.0 == table implies #[trigger] after.dom().contains(k)
        == earlier.dom().contains(k) by {
        assert(k == (table, k.1));
        if earlier.dom().contains(k) {
            assert(earlier.dom().contains((table, k.1)));
        } else if after.dom().contains(k) {
            let i = choose|i: int|
                0 <= i < given.len() && given_key(t, #[trigger] given[i]) == k.1;
            assert(earlier.dom().contains((table, given_key(t, given[i]))));
        }
    }
    assert(only_table(after, table) =~= only_table(earlier, table));
    assert(without_table(after, table) =~= without_table(rows, table));
}

/// The journal after the statement of `forget_edits`.
pub open spec fn after_forgetting(journal: Seq<EntryModel>, table: Seq<char>) -> Seq<EntryModel> {
    journal.filter(|e: EntryModel| e.table_name != table)
}

/// Of a table that was replaced no entry is left in the journal, and every other entry
/// stays.
pub proof fn law_replaced_edits_are_forgotten(journal: Seq<EntryModel>, table: Seq<char>)
    ensures
        forall|i: int|
            0 <= i < after_forgetting(journal, table).len() ==> (#[trigger] after_forgetting(
                journal,
                table,
            )[i]).table_name != table,
        forall|i: int|
            0 <= i < journal.len() && (#[trigger] journal[i]).table_name != table
                ==> after_forgetting(journal, table).contains(journal[i]),
{
    let other = |e: EntryModel| e.table_name != table;
    assert forall|i: int| 0 <= i < journal.filter(other).len() implies (#[trigger] journal.filter(
        other,
    )[i]).table_name != table by {
        journal.lemma_filter_pred(other, i);
    }
    assert forall|i: int|
        0 <= i < journal.len() && (#[trigger] journal[i]).table_name != table implies after_forgetting(
        journal,
        table,
    ).contains(journal[i]) by {
        journal.lemma_filter_contains(other, i);
    }
}

} // verus!
