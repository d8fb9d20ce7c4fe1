//! What holds of the statements and the counts that building a database comes to.

use vstd::prelude::*;
use crate::batches;
use crate::batches::{BatchKind, InsertionModel};
use crate::ddl;
use crate::discovery_laws;
use crate::effect_laws;
use crate::files::{FileModel, FileType};
use crate::loca::LocaModel;
use crate::partition;
use crate::partition::PopulateCounts;
use crate::pipeline;
use crate::pipeline::{GatheredModel, JobModel, PakKind, PakOutcomeModel};
use crate::schema::{FkModel, JunctionModel, PkStrategy, SchemaModel, TableModel};
use crate::sql;
use crate::stats_lists::{ModifierModel, ValueModel};
use crate::text;
use crate::textmap;
use crate::types::SqlModel;

verus! {

// ---------------------------------------------------------------------------
// Batches
// ---------------------------------------------------------------------------

/// The values of statements, one after another.
pub open spec fn all_values(list: Seq<InsertionModel>) -> Seq<SqlModel>
    decreases list.len(),
{
    if list.len() == 0 {
        Seq::empty()
    } else {
        list[0].statement.params + all_values(list.drop_first())
    }
}

proof fn lemma_flat_both(a: Seq<Seq<SqlModel>>, b: Seq<Seq<SqlModel>>)
    ensures
        batches::flat(a + b) == batches::flat(a) + batches::flat(b),
    decreases b.len(),
{
    if b.len() == 0 {
        assert(a + b =~= a);
        assert(batches::flat(a) + batches::flat(b) =~= batches::flat(a));
    } else {
        assert((a + b).drop_last() =~= a + b.drop_last());
        assert((a + b).last() == b.last());
        lemma_flat_both(a, b.drop_last());
        assert(batches::flat(a + b) =~= batches::flat(a) + batches::flat(b));
    }
}

proof fn lemma_batches_flat(k: BatchKind, rows: Seq<Seq<SqlModel>>)
    ensures
        all_values(batches::batches(k, rows)) == batches::flat(rows),
        forall|i: int|
            0 <= i < batches::batches(k, rows).len() ==> (#[trigger] batches::batches(
                k,
                rows,
            )[i]).table == k.table,
    decreases rows.len(),
{
    let r = batches::batches(k, rows);
    reveal_with_fuel(all_values, 2);
    if rows.len() == 0 {
        assert(batches::flat(rows) =~= Seq::<SqlModel>::empty());
    } else if rows.len() <= 100 {
        let one = batches::batch_of(k, rows);
        assert(r[0] == one);
        assert(r.drop_first() =~= Seq::<InsertionModel>::empty());
        assert(all_values(r) =~= batches::flat(rows));
    } else {
        let rest = batches::batches(k, rows.skip(100));
        lemma_batches_flat(k, rows.skip(100));
        assert(r.drop_first() =~= rest);
        lemma_flat_both(rows.take(100), rows.skip(100));
        assert(rows.take(100) + rows.skip(100) =~= rows);
        assert forall|i: int| 0 <= i < r.len() implies (#[trigger] r[i]).table == k.table by {
            if i > 0 {
                assert(r[i] == rest[i - 1]);
            }
        }
    }
}

proof fn lemma_flat_row(rows: Seq<Seq<SqlModel>>, i: int)
    requires
        0 <= i < rows.len(),
        forall|j: int| 0 <= j < rows.len() ==> (#[trigger] rows[j]).len() == 5,
    ensures
        batches::flat(rows).len() == 5 * rows.len(),
        batches::flat(rows).subrange(5 * i, 5 * i + 5) == rows[i],
    decreases rows.len(),
{
    let d = rows.drop_last();
    assert forall|j: int| 0 <= j < d.len() implies (#[trigger] d[j]).len() == 5 by {
        assert(d[j] == rows[j]);
    }
    assert(rows[rows.len() - 1].len() == 5);
    if d.len() > 0 {
        lemma_flat_row(d, 0);
    } else {
        assert(batches::flat(d) =~= Seq::<SqlModel>::empty());
    }
    if i < d.len() {
        lemma_flat_row(d, i);
        assert(d[i] == rows[i]);
        assert(batches::flat(rows).subrange(5 * i, 5 * i + 5) =~= batches::flat(d).subrange(
            5 * i,
            5 * i + 5,
        ));
    } else {
        assert(batches::flat(rows).subrange(5 * i, 5 * i + 5) =~= rows[i]);
    }
}

/// Localized texts go to their table in order, each with its handle, its file, its source,
/// its version and its text.
pub proof fn law_texts_are_inserted(
    entries: Seq<LocaModel>,
    file_id: i64,
    source_id: i64,
    i: int,
)
    requires
        0 <= i < entries.len(),
    ensures
        ({
            let list = batches::loca_batches(entries, file_id, source_id);
            &&& forall|k: int|
                0 <= k < list.len() ==> (#[trigger] list[k]).table == "loca__english"@
            &&& all_values(list).len() == 5 * entries.len()
            &&& all_values(list).subrange(5 * i, 5 * i + 5) == seq![
                SqlModel::Text(entries[i].contentuid),
                SqlModel::Integer(file_id as int),
                SqlModel::Integer(source_id as int),
                SqlModel::Integer(entries[i].version as int),
                effect_laws::stored(entries[i].text),
            ]
        }),
{
    let rows = Seq::new(
        entries.len(),
        |i: int| batches::loca_values(entries[i], file_id, source_id),
    );
    lemma_batches_flat(batches::loca_kind(), rows);
    lemma_flat_row(rows, i);
}

/// Values of value lists go to their table in order, each with its list, its name, its
/// index, its file and its source.
pub proof fn law_values_are_inserted(
    entries: Seq<ValueModel>,
    file_id: i64,
    source_id: i64,
    i: int,
)
    requires
        0 <= i < entries.len(),
    ensures
        ({
            let list = batches::value_batches(entries, file_id, source_id);
            &&& forall|k: int|
                0 <= k < list.len() ==> (#[trigger] list[k]).table == "valuelist_entries"@
            &&& all_values(list).len() == 5 * entries.len()
            &&& all_values(list).subrange(5 * i, 5 * i + 5) == seq![
                SqlModel::Text(entries[i].list_key),
                SqlModel::Text(entries[i].value_name),
                SqlModel::Integer(entries[i].value_index as int),
                SqlModel::Integer(file_id as int),
                SqlModel::Integer(source_id as int),
            ]
        }),
{
    let rows = Seq::new(
        entries.len(),
        |i: int| batches::value_values(entries[i], file_id, source_id),
    );
    lemma_batches_flat(batches::value_kind(), rows);
    lemma_flat_row(rows, i);
}

/// Fields of modifier types go to their table in order, each with its type, its name, the
/// type of its values, its file and its source.
pub proof fn law_modifiers_are_inserted(
    entries: Seq<ModifierModel>,
    file_id: i64,
    source_id: i64,
    i: int,
)
    requires
        0 <= i < entries.len(),
    ensures
        ({
            let list = batches::modifier_batches(entries, file_id, source_id);
            &&& forall|k: int|
                0 <= k < list.len() ==> (#[trigger] list[k]).table == "modifier_definitions"@
            &&& all_values(list).len() == 5 * entries.len()
            &&& all_values(list).subrange(5 * i, 5 * i + 5) == seq![
                SqlModel::Text(entries[i].modifier_type),
                SqlModel::Text(entries[i].field_name),
                SqlModel::Text(entries[i].field_type),
                SqlModel::Integer(file_id as int),
                SqlModel::Integer(source_id as int),
            ]
        }),
{
    let rows = Seq::new(
        entries.len(),
        |i: int| batches::modifier_values(entries[i], file_id, source_id),
    );
    lemma_batches_flat(batches::modifier_kind(), rows);
    lemma_flat_row(rows, i);
}

// ---------------------------------------------------------------------------
// Counts
// ---------------------------------------------------------------------------

/// A number as far as a count can hold it.
pub open spec fn held(n: nat) -> nat {
    if n <= u64::MAX {
        n
    } else {
        u64::MAX as nat
    }
}

/// The sum of numbers.
pub open spec fn sum(list: Seq<u64>) -> nat
    decreases list.len(),
{
    if list.len() == 0 {
        0
    } else {
        sum(list.drop_last()) + list.last() as nat
    }
}

/// The sum of the numbers of rows that went to a table.
pub open spec fn sum_for(list: Seq<InsertionModel>, taken: Seq<u64>, table: Seq<char>) -> nat
    decreases list.len(),
{
    if list.len() == 0 || taken.len() == 0 {
        0
    } else {
        sum_for(list.drop_last(), taken.drop_last(), table) + (if list.last().table == table {
            taken.last() as nat
        } else {
            0
        })
    }
}

/// The number of rows of a file is the sum of what its statements inserted, and each table
/// that is counted grows by what went to it.
pub proof fn law_rows_are_counted(
    counts: Seq<(Seq<char>, u64)>,
    list: Seq<InsertionModel>,
    taken: Seq<u64>,
    table: Seq<char>,
)
    requires
        list.len() == taken.len(),
    ensures
        batches::rows_inserted(taken) == held(sum(taken)),
        ({
            let after = batches::all_counted(counts, list, taken);
            &&& textmap::has_key(after, table) <==> textmap::has_key(counts, table)
            &&& textmap::value_of(counts, table) matches Some(n) ==> (textmap::value_of(
                after,
                table,
            ) matches Some(m) && m == held(n as nat + sum_for(list, taken, table)))
        }),
    decreases list.len(),
{
    if list.len() > 0 {
        let before = batches::all_counted(counts, list.drop_last(), taken.drop_last());
        law_rows_are_counted(counts, list.drop_last(), taken.drop_last(), table);
        let last = list.last().table;
        if textmap::has_key(before, last) {
            let n = textmap::value_of(before, last)->0;
            discovery_laws::lemma_set(
                before,
                last,
                partition::sum_or_max(n, taken.last()),
                table,
            );
        }
    }
}

/// The number of files that failed.
pub open spec fn failures(outcomes: Seq<Result<(u64, u64), String>>) -> nat
    decreases outcomes.len(),
{
    if outcomes.len() == 0 {
        0
    } else {
        failures(outcomes.drop_last()) + (if outcomes.last() is Err {
            1nat
        } else {
            0nat
        })
    }
}

/// The rows and the errors of the files that did not fail.
pub open spec fn totals(outcomes: Seq<Result<(u64, u64), String>>) -> (nat, nat)
    decreases outcomes.len(),
{
    if outcomes.len() == 0 {
        (0, 0)
    } else {
        let before = totals(outcomes.drop_last());
        match outcomes.last() {
            Ok(p) => (before.0 + p.0 as nat, before.1 + p.1 as nat),
            Err(_) => before,
        }
    }
}

/// What comes of files together is the sum of their rows, the sum of their errors and the
/// number of those that failed.
pub proof fn law_files_add_up(outcomes: Seq<Result<(u64, u64), String>>)
    ensures
        ({
            let r = partition::all_file_counts(outcomes);
            &&& r.total_rows == held(totals(outcomes).0)
            &&& r.row_errors == held(totals(outcomes).1)
            &&& r.file_errors == held(failures(outcomes))
        }),
    decreases outcomes.len(),
{
    if outcomes.len() > 0 {
        law_files_add_up(outcomes.drop_last());
    }
}

proof fn lemma_added(
    counts: Seq<(Seq<char>, u64)>,
    more: Seq<(Seq<char>, u64)>,
    table: Seq<char>,
)
    requires
        textmap::distinct(more),
    ensures
        ({
            let r = partition::added_counts(counts, more);
            let n = match textmap::value_of(counts, table) {
                Some(n) => n as nat,
                None => 0,
            };
            &&& textmap::value_of(more, table) matches Some(m) ==> (textmap::value_of(
                r,
                table,
            ) matches Some(s) && s == held(n + m as nat))
            &&& !textmap::has_key(more, table) ==> textmap::value_of(r, table) == textmap::value_of(
                counts,
                table,
            )
        }),
    decreases more.len(),
{
    if more.len() > 0 {
        let d = more.drop_last();
        let before = partition::added_counts(counts, d);
        let last = more.last();
        assert forall|i: int, j: int| 0 <= i < j < d.len() implies #[trigger] d[i].0
            != #[trigger] d[j].0 by {
            assert(more[i].0 != more[j].0);
        }
        lemma_added(counts, d, table);
        let n = match textmap::value_of(before, last.0) {
            Some(n) => n,
            None => 0,
        };
        discovery_laws::lemma_set(before, last.0, partition::sum_or_max(n, last.1), table);
        textmap::lemma_key_pos(more, table);
        textmap::lemma_key_pos(d, table);
        if last.0 == table {
            assert forall|j: int| 0 <= j < more.len() - 1 implies (#[trigger] more[j]).0
                != table by {
                assert(more[j].0 != more[more.len() - 1].0);
            }
            textmap::lemma_key_pos_is(more, table, more.len() - 1);
            assert(!textmap::has_key(d, table));
        }
    }
}

/// The counts of two databases add up, table by table.
pub proof fn law_databases_add_up(
    counts: Seq<(Seq<char>, u64)>,
    more: Seq<(Seq<char>, u64)>,
    table: Seq<char>,
    a: PopulateCounts,
    b: PopulateCounts,
)
    requires
        textmap::distinct(more),
    ensures
        ({
            let r = partition::added_counts(counts, more);
            let n = match textmap::value_of(counts, table) {
                Some(n) => n as nat,
                None => 0,
            };
            &&& textmap::value_of(more, table) matches Some(m) ==> (textmap::value_of(
                r,
                table,
            ) matches Some(s) && s == held(n + m as nat))
            &&& !textmap::has_key(more, table) ==> textmap::value_of(r, table) == textmap::value_of(
                counts,
                table,
            )
        }),
        a.plus(b).total_rows == held(a.total_rows as nat + b.total_rows as nat),
        a.plus(b).row_errors == held(a.row_errors as nat + b.row_errors as nat),
        a.plus(b).file_errors == held(a.file_errors as nat + b.file_errors as nat),
{
    lemma_added(counts, more, table);
}

/// Whether a table got rows.
pub open spec fn got_rows(counts: Seq<(Seq<char>, u64)>, table: Seq<char>) -> bool {
    textmap::value_of(counts, table) matches Some(n) && n > 0
}

/// Every table that got rows is copied, and every junction whose parents got rows.
pub proof fn law_filled_tables_are_copied(
    tables: Seq<(Seq<char>, TableModel)>,
    counts: Seq<(Seq<char>, u64)>,
    i: int,
)
    requires
        0 <= i < tables.len(),
        got_rows(counts, tables[i].0),
    ensures
        partition::table_copies(tables, counts).contains(partition::copy_sql(tables[i].0)),
    decreases tables.len(),
{
    let d = tables.drop_last();
    let before = partition::table_copies(d, counts);
    let r = partition::table_copies(tables, counts);
    let x = partition::copy_sql(tables[i].0);
    if i < d.len() {
        assert(d[i] == tables[i]);
        law_filled_tables_are_copied(d, counts, i);
        let at = choose|at: int| 0 <= at < before.len() && before[at] == x;
        assert(r[at] == x);
    } else {
        assert(r[r.len() - 1] == x);
    }
}

/// Every junction whose parents got rows is copied.
pub proof fn law_filled_junctions_are_copied(
    junctions: Seq<JunctionModel>,
    counts: Seq<(Seq<char>, u64)>,
    i: int,
)
    requires
        0 <= i < junctions.len(),
        got_rows(counts, junctions[i].parent_table),
    ensures
        partition::junction_copies(junctions, counts).contains(
            partition::copy_sql(junctions[i].table_name),
        ),
    decreases junctions.len(),
{
    let d = junctions.drop_last();
    let before = partition::junction_copies(d, counts);
    let r = partition::junction_copies(junctions, counts);
    let x = partition::copy_sql(junctions[i].table_name);
    if i < d.len() {
        assert(d[i] == junctions[i]);
        law_filled_junctions_are_copied(d, counts, i);
        let at = choose|at: int| 0 <= at < before.len() && before[at] == x;
        assert(r[at] == x);
    } else {
        assert(r[r.len() - 1] == x);
    }
}

/// Whether a module is one of some files.
pub open spec fn is_module_of(files: Seq<FileModel>, m: Seq<char>) -> bool {
    exists|i: int| 0 <= i < files.len() && (#[trigger] files[i]).mod_name == m
}

/// The sources of a database are the modules of its files, each once.
pub proof fn law_sources_are_modules(files: Seq<FileModel>, m: Seq<char>)
    ensures
        partition::modules_of(files).contains(m) <==> is_module_of(files, m),
        partition::modules_of(files).no_duplicates(),
    decreases files.len(),
{
    if files.len() > 0 {
        let d = files.drop_last();
        let before = partition::modules_of(d);
        let r = partition::modules_of(files);
        let last = files.last().mod_name;
        law_sources_are_modules(d, m);
        law_sources_are_modules(d, last);
        assert(files[files.len() - 1] == files.last());
        if is_module_of(d, m) {
            let i = choose|i: int| 0 <= i < d.len() && (#[trigger] d[i]).mod_name == m;
            assert(files[i] == d[i]);
            let k = choose|k: int| 0 <= k < before.len() && before[k] == m;
            assert(r[k] == m);
        }
        if is_module_of(files, m) && m != last {
            let i = choose|i: int| 0 <= i < files.len() && (#[trigger] files[i]).mod_name == m;
            assert(d[i] == files[i]);
        }
        if m == last && !before.contains(last) {
            assert(r[before.len() as int] == m);
        }
        if r.contains(m) && m != last {
            let k = choose|k: int| 0 <= k < r.len() && r[k] == m;
            assert(before[k] == m);
        }
        if !before.contains(last) {
            assert forall|i: int, j: int| 0 <= i < r.len() && 0 <= j < r.len() && i != j implies r[i]
                != r[j] by {
                if i < before.len() && j < before.len() {
                    assert(before[i] != before[j]);
                }
            }
        }
    }
}

/// A new source gets a number above all that are known.
pub proof fn law_new_number_is_free(rows: Seq<(i64, Seq<char>)>, i: int)
    requires
        0 <= i < rows.len(),
    ensures
        rows[i].0 <= batches::max_id(rows),
        (forall|j: int| i < j < rows.len() ==> (#[trigger] rows[j]).1 != rows[i].1)
            ==> textmap::value_of(batches::ids_of(rows), rows[i].1) == Some(rows[i].0),
    decreases rows.len(),
{
    let d = rows.drop_last();
    let last = rows.last();
    discovery_laws::lemma_set(batches::ids_of(d), last.1, last.0, rows[i].1);
    assert(rows[rows.len() - 1] == last);
    if i < d.len() {
        assert(d[i] == rows[i]);
        law_new_number_is_free(d, i);
        if forall|j: int| i < j < rows.len() ==> (#[trigger] rows[j]).1 != rows[i].1 {
            assert forall|j: int| i < j < d.len() implies (#[trigger] d[j]).1 != d[i].1 by {
                assert(d[j] == rows[j]);
            }
        }
    }
}

// ---------------------------------------------------------------------------
// Packages
// ---------------------------------------------------------------------------

proof fn lemma_jobs(names: Seq<Seq<char>>, kind: PakKind, i: int)
    requires
        0 <= i < names.len(),
        pipeline::of_kind(names[i], kind),
    ensures
        pipeline::jobs_of_kind(names, kind).contains(
            JobModel { kind, label: names[i], name: pipeline::without_pak(names[i]) },
        ),
    decreases names.len(),
{
    let d = names.drop_last();
    let before = pipeline::jobs_of_kind(d, kind);
    let r = pipeline::jobs_of_kind(names, kind);
    let x = JobModel { kind, label: names[i], name: pipeline::without_pak(names[i]) };
    if i < d.len() {
        assert(d[i] == names[i]);
        lemma_jobs(d, kind, i);
        let at = choose|at: int| 0 <= at < before.len() && before[at] == x;
        assert(r[at] == x);
    } else {
        assert(r[r.len() - 1] == x);
    }
}

/// The packages to be read hold those of the game itself, all dice and all hotfixes.
pub proof fn law_packages_hold_all(names: Seq<Seq<char>>, i: int)
    ensures
        0 <= i < names.len() && "DiceSet"@.is_prefix_of(names[i]) && ".pak"@.is_suffix_of(names[i])
            ==> has_job(pipeline::jobs_for(names), PakKind::DiceSet, names[i]),
        0 <= i < names.len() && "Patch"@.is_prefix_of(names[i]) && text::has_text(
            names[i],
            "_HotFix"@,
        ) ==> has_job(pipeline::jobs_for(names), PakKind::Hotfix, names[i]),
        0 <= i < pipeline::data_paks().len() ==> has_job(
            pipeline::jobs_for(names),
            PakKind::Data,
            pipeline::data_paks()[i],
        ),
{
    let all = pipeline::jobs_for(names);
    let own = Seq::new(
        pipeline::data_paks().len(),
        |i: int|
            JobModel {
                kind: PakKind::Data,
                label: pipeline::data_paks()[i],
                name: pipeline::data_paks()[i],
            },
    );
    let dice = pipeline::jobs_of_kind(names, PakKind::DiceSet);
    let fixes = pipeline::jobs_of_kind(names, PakKind::Hotfix);
    if 0 <= i < names.len() && pipeline::of_kind(names[i], PakKind::DiceSet) {
        lemma_jobs(names, PakKind::DiceSet, i);
        let x = JobModel {
            kind: PakKind::DiceSet,
            label: names[i],
            name: pipeline::without_pak(names[i]),
        };
        let at = choose|at: int| 0 <= at < dice.len() && dice[at] == x;
        assert(all[own.len() + at] == x);
    }
    if 0 <= i < names.len() && pipeline::of_kind(names[i], PakKind::Hotfix) {
        lemma_jobs(names, PakKind::Hotfix, i);
        let x = JobModel {
            kind: PakKind::Hotfix,
            label: names[i],
            name: pipeline::without_pak(names[i]),
        };
        let at = choose|at: int| 0 <= at < fixes.len() && fixes[at] == x;
        assert(all[own.len() + dice.len() + at] == x);
    }
    if 0 <= i < pipeline::data_paks().len() {
        assert(all[i] == own[i]);
    }
}

/// Whether a package of a kind is to be read.
pub open spec fn has_job(jobs: Seq<JobModel>, kind: PakKind, label: Seq<char>) -> bool {
    exists|i: int|
        0 <= i < jobs.len() && (#[trigger] jobs[i]).kind == kind && jobs[i].label == label
}

/// A package's name is that of its file without the extension.
pub proof fn law_package_name_lacks_extension(name: Seq<char>)
    ensures
        !".pak"@.is_suffix_of(pipeline::without_pak(name)),
        pipeline::without_pak(name).is_prefix_of(name),
        !".pak"@.is_suffix_of(name) ==> pipeline::without_pak(name + ".pak"@) == name,
    decreases name.len(),
{
    reveal_strlit(".pak");
    let w = ".pak"@;
    if w.is_suffix_of(name) {
        let d = name.take(name.len() - 4);
        law_package_name_lacks_extension(d);
        let r = pipeline::without_pak(name);
        assert(r =~= name.subrange(0, r.len() as int)) by {
            assert(r =~= d.subrange(0, r.len() as int));
        }
    } else {
        assert(name =~= name.subrange(0, name.len() as int));
        let s = name + w;
        assert(w =~= s.subrange(s.len() - 4, s.len() as int));
        assert(s.take(s.len() - 4) =~= name);
        reveal_with_fuel(pipeline::without_pak, 2);
    }
}

/// The files that the packages that could be read hold, in order.
pub open spec fn files_in(outcomes: Seq<PakOutcomeModel>) -> Seq<FileModel>
    decreases outcomes.len(),
{
    if outcomes.len() == 0 {
        Seq::empty()
    } else {
        match outcomes.last() {
            PakOutcomeModel::Loaded { files, note } => files_in(outcomes.drop_last()) + files,
            PakOutcomeModel::Failed(_) => files_in(outcomes.drop_last()),
        }
    }
}

/// How many packages could be read.
pub open spec fn loaded(outcomes: Seq<PakOutcomeModel>) -> nat
    decreases outcomes.len(),
{
    if outcomes.len() == 0 {
        0
    } else {
        loaded(outcomes.drop_last()) + (if outcomes.last() is Loaded {
            1nat
        } else {
            0nat
        })
    }
}

/// What is gathered from packages is all that those that could be read hold. Each other
/// package but one of dice is an error.
pub proof fn law_packages_are_gathered(
    g: GatheredModel,
    jobs: Seq<JobModel>,
    outcomes: Seq<PakOutcomeModel>,
)
    requires
        outcomes.len() <= jobs.len(),
    ensures
        ({
            let r = pipeline::with_paks(g, jobs, outcomes);
            &&& r.files == g.files + files_in(outcomes)
            &&& r.paks_extracted == g.paks_extracted + loaded(outcomes)
            &&& r.files_extracted == g.files_extracted + files_in(outcomes).len()
            &&& r.loca_converted == g.loca_converted
            &&& r.diagnostics.len() == g.diagnostics.len() + outcomes.len()
            &&& r.errors.len() == g.errors.len() + faults(jobs, outcomes)
        }),
    decreases outcomes.len(),
{
    if outcomes.len() == 0 {
        assert(g.files + files_in(outcomes) =~= g.files);
    } else {
        let d = outcomes.drop_last();
        law_packages_are_gathered(g, jobs, d);
        match outcomes.last() {
            PakOutcomeModel::Loaded { files, note } => {
                assert((g.files + files_in(d)) + files =~= g.files + (files_in(d) + files));
            },
            PakOutcomeModel::Failed(e) => {},
        }
    }
}

/// How many packages but those of dice could not be read.
pub open spec fn faults(jobs: Seq<JobModel>, outcomes: Seq<PakOutcomeModel>) -> nat
    decreases outcomes.len(),
{
    if outcomes.len() == 0 {
        0
    } else {
        faults(jobs, outcomes.drop_last()) + (if outcomes.last() is Failed && jobs[outcomes.len()
            - 1].kind != PakKind::DiceSet {
            1nat
        } else {
            0nat
        })
    }
}

/// The files of packages are collected where every package of the game itself could be
/// read; otherwise the first that could not is the error.
pub proof fn law_packages_are_collected(
    jobs: Seq<JobModel>,
    outcomes: Seq<PakOutcomeModel>,
)
    requires
        outcomes.len() <= jobs.len(),
    ensures
        ({
            let r = pipeline::collected(jobs, outcomes);
            &&& r is Ok <==> forall|i: int|
                0 <= i < outcomes.len() && jobs[i].kind == PakKind::Data ==> (
                #[trigger] outcomes[i]) is Loaded
            &&& r matches Ok(c) ==> c.0 == files_in(outcomes) && c.1.len() == outcomes.len()
        }),
    decreases outcomes.len(),
{
    if outcomes.len() > 0 {
        let d = outcomes.drop_last();
        let n = d.len() as int;
        law_packages_are_collected(jobs, d);
        assert(outcomes[n] == outcomes.last());
        assert((forall|i: int|
            0 <= i < d.len() && jobs[i].kind == PakKind::Data ==> (#[trigger] d[i]) is Loaded) && (
        jobs[n].kind == PakKind::Data ==> outcomes.last() is Loaded) <==> (forall|i: int|
            0 <= i < outcomes.len() && jobs[i].kind == PakKind::Data ==> (
            #[trigger] outcomes[i]) is Loaded)) by {
            if forall|i: int|
                0 <= i < outcomes.len() && jobs[i].kind == PakKind::Data ==> (
                #[trigger] outcomes[i]) is Loaded {
                assert forall|i: int|
                    0 <= i < d.len() && jobs[i].kind == PakKind::Data implies (
                #[trigger] d[i]) is Loaded by {
                    assert(d[i] == outcomes[i]);
                }
            }
            if (forall|i: int|
                0 <= i < d.len() && jobs[i].kind == PakKind::Data ==> (#[trigger] d[i]) is Loaded)
                && (jobs[n].kind == PakKind::Data ==> outcomes.last() is Loaded) {
                assert forall|i: int|
                    0 <= i < outcomes.len() && jobs[i].kind == PakKind::Data implies (
                #[trigger] outcomes[i]) is Loaded by {
                    if i < n {
                        assert(d[i] == outcomes[i]);
                    }
                }
            }
        }
    }
}

/// Localization files are counted one by one.
pub proof fn law_loca_files_are_counted(a: Seq<FileModel>, b: Seq<FileModel>)
    ensures
        pipeline::loca_files(a + b) == pipeline::loca_files(a) + pipeline::loca_files(b),
        b.len() == 1 ==> pipeline::loca_files(b) == (if b[0].file_type == FileType::Loca {
            1nat
        } else {
            0nat
        }),
    decreases b.len(),
{
    if b.len() == 0 {
        assert(a + b =~= a);
    } else {
        assert((a + b).drop_last() =~= a + b.drop_last());
        assert((a + b).last() == b.last());
        law_loca_files_are_counted(a, b.drop_last());
        reveal_with_fuel(pipeline::loca_files, 2);
    }
}

// ---------------------------------------------------------------------------
// Definitions of tables
// ---------------------------------------------------------------------------

/// Whether a reference can be enforced: it leads to the key of a table, from a column that
/// the table has, and not from a key to itself.
pub open spec fn can_hold(fk: FkModel, t: TableModel, schema: SchemaModel) -> bool {
    let key = t.pk_strategy.key_column();
    &&& textmap::value_of(schema.tables, fk.target_table) matches Some(target)
        && target.pk_strategy.key_column() == fk.target_column
    &&& fk.source_column == key || exists|i: int|
        0 <= i < t.columns.len() && (#[trigger] t.columns[i]).name == fk.source_column
    &&& !(fk.source_column == key && fk.target_table == t.table_name)
}

proof fn lemma_enforced(fks: Seq<FkModel>, t: TableModel, schema: SchemaModel, i: int)
    requires
        0 <= i < fks.len(),
        can_hold(fks[i], t, schema),
    ensures
        ddl::enforced_fks(fks, t, schema).contains(fks[i]),
    decreases fks.len(),
{
    let d = fks.drop_last();
    let before = ddl::enforced_fks(d, t, schema);
    let r = ddl::enforced_fks(fks, t, schema);
    if i < d.len() {
        assert(d[i] == fks[i]);
        lemma_enforced(d, t, schema, i);
        let at = choose|at: int| 0 <= at < before.len() && before[at] == fks[i];
        assert(r[at] == fks[i]);
    } else {
        assert(r[r.len() - 1] == fks[i]);
    }
}

/// The definition of a table has its key first, a line for each of its columns, and a
/// constraint for each reference that can be enforced.
pub proof fn law_definition_has_columns(t: TableModel, schema: SchemaModel, i: int)
    ensures
        ({
            let lines = ddl::table_lines(t, schema);
            &&& lines[0] == "    \""@ + t.pk_strategy.key_column() + "\" "@
                + t.pk_strategy.key_type() + " PRIMARY KEY"@
            &&& t.has_file_id ==> lines.contains(
                "    _file_id INTEGER NOT NULL REFERENCES _source_files(file_id)"@,
            )
            &&& t.pk_strategy != PkStrategy::Rowid ==> lines.contains(
                "    \"_SourceID\" INTEGER REFERENCES _sources(id)"@,
            )
            &&& 0 <= i < t.columns.len() ==> lines.contains(
                "    \""@ + t.columns[i].name + "\" "@ + t.columns[i].sqlite_type,
            )
            &&& 0 <= i < t.fk_constraints.len() && can_hold(t.fk_constraints[i], t, schema)
                ==> lines.contains(
                "    FOREIGN KEY(\""@ + t.fk_constraints[i].source_column + "\") REFERENCES \""@
                    + t.fk_constraints[i].target_table + "\"(\""@
                    + t.fk_constraints[i].target_column + "\")"@,
            )
        }),
{
    let lines = ddl::table_lines(t, schema);
    let file = if t.has_file_id {
        1int
    } else {
        0int
    };
    let source = if t.pk_strategy == PkStrategy::Rowid {
        0int
    } else {
        1int
    };
    if t.has_file_id {
        assert(lines[1] == "    _file_id INTEGER NOT NULL REFERENCES _source_files(file_id)"@);
    }
    if t.pk_strategy != PkStrategy::Rowid {
        assert(lines[1 + file] == "    \"_SourceID\" INTEGER REFERENCES _sources(id)"@);
    }
    if 0 <= i < t.columns.len() {
        assert(lines[1 + file + source + i] == ddl::column_line(t.columns[i]));
    }
    if 0 <= i < t.fk_constraints.len() && can_hold(t.fk_constraints[i], t, schema) {
        let fks = ddl::enforced_fks(t.fk_constraints, t, schema);
        lemma_enforced(t.fk_constraints, t, schema, i);
        let at = choose|at: int| 0 <= at < fks.len() && fks[at] == t.fk_constraints[i];
        assert(lines[1 + file + source + t.columns.len() + at] == ddl::fk_line(fks[at]));
    }
}

/// Every column of every table has its types noted.
pub proof fn law_column_types_are_noted(
    tables: Seq<(Seq<char>, TableModel)>,
    i: int,
    c: int,
)
    requires
        0 <= i < tables.len(),
        0 <= c < tables[i].1.columns.len(),
    ensures
        effect_laws::writes(
            sql::statements_of(tables, ddl::table_type_rows()),
            "Insert column type"@,
            seq![
                SqlModel::Text(tables[i].0),
                SqlModel::Text(tables[i].1.columns[c].name),
                SqlModel::Text(tables[i].1.columns[c].bg3_type),
                SqlModel::Text(tables[i].1.columns[c].sqlite_type),
            ],
        ),
{
    let t = tables[i];
    let f = ddl::column_type_row(t.0);
    let one = f(t.1.columns[c])[0];
    assert(f(t.1.columns[c]) =~= seq![one]);
    assert(seq![one][0] == one);
    assert(effect_laws::writes(seq![one], one.what, one.params));
    effect_laws::lemma_writes_part(t.1.columns, f, c, one.what, one.params);
    effect_laws::lemma_writes_part(tables, ddl::table_type_rows(), i, one.what, one.params);
}

proof fn lemma_indexes(tables: Seq<(Seq<char>, TableModel)>, i: int, x: Seq<char>)
    requires
        0 <= i < tables.len(),
        ddl::table_indexes(tables[i].0, tables[i].1).contains(x),
    ensures
        ddl::indexes_of(tables).contains(x),
    decreases tables.len(),
{
    let d = tables.drop_last();
    let before = ddl::indexes_of(d);
    let last = ddl::table_indexes(tables.last().0, tables.last().1);
    let r = ddl::indexes_of(tables);
    if i < d.len() {
        assert(d[i] == tables[i]);
        lemma_indexes(d, i, x);
        let at = choose|at: int| 0 <= at < before.len() && before[at] == x;
        assert(r[at] == x);
    } else {
        let at = choose|at: int| 0 <= at < last.len() && last[at] == x;
        assert(r[before.len() + at] == x);
    }
}

/// Every table with files has an index on them, and every stats table with names of entries
/// has one on those.
pub proof fn law_tables_have_indexes(tables: Seq<(Seq<char>, TableModel)>, i: int)
    requires
        0 <= i < tables.len(),
    ensures
        tables[i].1.has_file_id ==> ddl::indexes_of(tables).contains(
            "CREATE INDEX IF NOT EXISTS \"idx_"@ + tables[i].0 + "__fid\" ON \""@ + tables[i].0
                + "\"(\"_file_id\")"@,
        ),
        "stats__"@.is_prefix_of(tables[i].0) && (exists|c: int|
            0 <= c < tables[i].1.columns.len() && (#[trigger] tables[i].1.columns[c]).name
                == "_entry_name"@) ==> ddl::indexes_of(tables).contains(
            "CREATE INDEX IF NOT EXISTS \"idx_"@ + tables[i].0 + "__ent\" ON \""@ + tables[i].0
                + "\"(\"_entry_name\")"@,
        ),
{
    let t = tables[i];
    let own = ddl::table_indexes(t.0, t.1);
    if t.1.has_file_id {
        let x = "CREATE INDEX IF NOT EXISTS \"idx_"@ + t.0 + "__fid\" ON \""@ + t.0
            + "\"(\"_file_id\")"@;
        assert(own[0] == x);
        lemma_indexes(tables, i, x);
    }
    if "stats__"@.is_prefix_of(t.0) && ddl::lists_column(t.1.columns, "_entry_name"@) {
        let x = "CREATE INDEX IF NOT EXISTS \"idx_"@ + t.0 + "__ent\" ON \""@ + t.0
            + "\"(\"_entry_name\")"@;
        assert(own[own.len() - 1] == x);
        lemma_indexes(tables, i, x);
    }
}

/// The definition of a junction refers to the keys of both tables, with their types.
pub proof fn law_junction_refers_to_keys(j: JunctionModel)
    ensures
        ({
            let parent = "CREATE TABLE IF NOT EXISTS \""@ + j.table_name
                + "\" (\n    parent_id "@ + j.parent_pk_type + " NOT NULL REFERENCES \""@
                + j.parent_table + "\"(\""@ + j.parent_pk_column;
            let child = "\"),\n    child_id "@ + j.child_pk_type + " NOT NULL REFERENCES \""@
                + j.child_table + "\"(\""@ + j.child_pk_column;
            (parent + child).is_prefix_of(ddl::junction_ddl(j))
        }),
{
    let parent = "CREATE TABLE IF NOT EXISTS \""@ + j.table_name + "\" (\n    parent_id "@
        + j.parent_pk_type + " NOT NULL REFERENCES \""@ + j.parent_table + "\"(\""@
        + j.parent_pk_column;
    let child = "\"),\n    child_id "@ + j.child_pk_type + " NOT NULL REFERENCES \""@
        + j.child_table + "\"(\""@ + j.child_pk_column;
    let head = parent + child;
    let s = ddl::junction_ddl(j);
    assert(head =~= s.subrange(0, head.len() as int));
}

/// The definition of a table that holds several mods has a line for each of its columns; a
/// table with a key is keyed by it and the source together.
pub proof fn law_mods_table_has_columns(t: TableModel, i: int)
    ensures
        ({
            let lines = ddl::mods_lines(t);
            let key = t.pk_strategy.key_column();
            let keyed = t.pk_strategy != PkStrategy::Rowid;
            &&& lines.contains("    \"_SourceID\" INTEGER NOT NULL"@)
            &&& t.has_file_id ==> lines.contains("    _file_id INTEGER NOT NULL"@)
            &&& 0 <= i < t.columns.len() ==> lines.contains(
                "    \""@ + t.columns[i].name + "\" "@ + t.columns[i].sqlite_type,
            )
            &&& keyed ==> lines[0] == "    \""@ + key + "\" "@ + t.pk_strategy.key_type()
                + " NOT NULL"@ && lines[lines.len() - 1] == "    PRIMARY KEY (\""@ + key
                + "\", \"_SourceID\")"@
            &&& !keyed ==> lines[0] == "    \"_row_id\" INTEGER PRIMARY KEY"@
        }),
{
    let lines = ddl::mods_lines(t);
    let file = if t.has_file_id {
        1int
    } else {
        0int
    };
    assert(lines[1] == "    \"_SourceID\" INTEGER NOT NULL"@);
    if t.has_file_id {
        assert(lines[2] == "    _file_id INTEGER NOT NULL"@);
    }
    if 0 <= i < t.columns.len() {
        assert(lines[2 + file + i] == ddl::column_line(t.columns[i]));
    }
}

} // verus!
