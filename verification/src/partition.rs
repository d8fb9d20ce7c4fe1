//! How files are divided among databases that are filled side by side, and how
//! these become one.

use vstd::prelude::*;
use vstd::string::*;
use crate::files::{FileEntry, FileModel};
use crate::order;
use crate::order::sort_ranked;
use crate::parsed;
use crate::schema::{DiscoveredSchema, JunctionModel, TableModel};
use crate::sql::{text_value, Statement, StatementModel};
use crate::batches;
use crate::text;
use crate::text::{ends_with, owned, replace_all, text_eq};
use crate::textmap;
use crate::textmap::{add_member, TextMap};
use crate::types::SqlValue;

verus! {

/// A file that belongs to an effect: one of the runtime, as it is or converted.
pub open spec fn effect_file(f: FileModel) -> bool {
    parsed::extension_in(f) == Some("lsfx"@) || ".lsfx.lsx"@.is_suffix_of(f.rel_path)
}

/// Whether a file belongs to an effect.
pub fn is_effect_file(file: &FileEntry) -> (r: bool)
    ensures
        r == effect_file(file.deep_view()),
{
    let by_ext = match file.extension() {
        Some(e) => text_eq(e.as_str(), "lsfx"),
        None => false,
    };
    by_ext || ends_with(file.rel_path.as_str(), ".lsfx.lsx")
}

/// The number of databases that effect files go to beside the main one. Few
/// files need none.
pub fn num_effect_partitions(effect_file_count: usize) -> (r: usize)
    ensures
        r == (if effect_file_count < 200 {
            0usize
        } else {
            1usize
        }),
{
    if effect_file_count < 200 {
        0
    } else {
        1
    }
}

/// The files that belong to effects, or the others, in the order in which they
/// stand.
pub open spec fn files_where(files: Seq<FileModel>, effects: bool) -> Seq<FileModel>
    decreases files.len(),
{
    if files.len() == 0 {
        Seq::empty()
    } else {
        let before = files_where(files.drop_last(), effects);
        if effect_file(files.last()) == effects {
            before.push(files.last())
        } else {
            before
        }
    }
}

/// Every file goes to exactly one side.
pub proof fn law_files_divided(files: Seq<FileModel>)
    ensures
        files_where(files, true).to_multiset().add(files_where(files, false).to_multiset())
            == files.to_multiset(),
        files_where(files, true).len() + files_where(files, false).len() == files.len(),
    decreases files.len(),
{
    broadcast use vstd::seq_lib::group_to_multiset_ensures;

    let a = files_where(files, true).to_multiset();
    let b = files_where(files, false).to_multiset();
    if files.len() > 0 {
        law_files_divided(files.drop_last());
        let before = files.drop_last();
        assert(before.push(files.last()) =~= files);
        let one = files_where(before, true).to_multiset();
        let two = files_where(before, false).to_multiset();
        assert(files.to_multiset() =~= before.to_multiset().insert(files.last()));
        if effect_file(files.last()) {
            assert(one.insert(files.last()).add(two) =~= one.add(two).insert(files.last()));
        } else {
            assert(one.add(two.insert(files.last())) =~= one.add(two).insert(files.last()));
        }
    } else {
        assert(files_where(files, true) =~= files);
        assert(files_where(files, false) =~= files);
        assert(a.add(b) =~= files.to_multiset());
    }
}

/// A list in pieces of `size` items, the last one of what is left.
pub open spec fn chunked<T>(s: Seq<T>, size: nat) -> Seq<Seq<T>>
    decreases s.len(),
{
    if s.len() == 0 || size == 0 {
        Seq::empty()
    } else if s.len() <= size {
        seq![s]
    } else {
        seq![s.take(size as int)] + chunked(s.skip(size as int), size)
    }
}

/// Pieces, one after the other.
pub open spec fn unchunked<T>(pieces: Seq<Seq<T>>) -> Seq<T>
    decreases pieces.len(),
{
    if pieces.len() == 0 {
        Seq::empty()
    } else {
        pieces[0] + unchunked(pieces.drop_first())
    }
}

/// Pieces hold the list, in its order.
pub proof fn law_chunks_hold_all<T>(s: Seq<T>, size: nat)
    requires
        size > 0,
    ensures
        unchunked(chunked(s, size)) == s,
    decreases s.len(),
{
    let pieces = chunked(s, size);
    if s.len() == 0 {
    } else if s.len() <= size {
        assert(pieces.drop_first() =~= Seq::<Seq<T>>::empty());
        reveal_with_fuel(unchunked, 2);
        assert(s + Seq::<T>::empty() =~= s);
    } else {
        law_chunks_hold_all(s.skip(size as int), size);
        assert(pieces.drop_first() =~= chunked(s.skip(size as int), size));
        assert(s.take(size as int) + s.skip(size as int) =~= s);
    }
}

/// The first number of each group, where the numbers of the groups follow each
/// other from `offset` on: the files of a group get the numbers above its base.
pub open spec fn id_bases(sizes: Seq<nat>, offset: int) -> Seq<int>
    decreases sizes.len(),
{
    if sizes.len() == 0 {
        Seq::empty()
    } else {
        id_bases(sizes.drop_last(), offset).push(offset + total(sizes.drop_last()))
    }
}

/// The sum of sizes.
pub open spec fn total(sizes: Seq<nat>) -> nat
    decreases sizes.len(),
{
    if sizes.len() == 0 {
        0
    } else {
        total(sizes.drop_last()) + sizes.last()
    }
}

/// The numbers of one group end before those of the next begin, and all lie
/// above what was there before.
pub proof fn law_id_ranges_apart(sizes: Seq<nat>, offset: int)
    ensures
        id_bases(sizes, offset).len() == sizes.len(),
        forall|i: int|
            0 <= i < sizes.len() ==> offset <= #[trigger] id_bases(sizes, offset)[i]
                && id_bases(sizes, offset)[i] + sizes[i] <= offset + total(sizes),
        forall|i: int, j: int|
            #![trigger id_bases(sizes, offset)[i], id_bases(sizes, offset)[j]]
            0 <= i < j < sizes.len() ==> id_bases(sizes, offset)[i] + sizes[i] <= id_bases(
                sizes,
                offset,
            )[j],
    decreases sizes.len(),
{
    if sizes.len() > 0 {
        law_id_ranges_apart(sizes.drop_last(), offset);
        let before = id_bases(sizes.drop_last(), offset);
        let all = id_bases(sizes, offset);
        assert forall|i: int, j: int| 0 <= i < j < sizes.len() implies #[trigger] all[i] + sizes[i]
            <= #[trigger] all[j] by {
            assert(all[i] == before[i]);
            assert(sizes.drop_last()[i] == sizes[i]);
            if j < sizes.len() - 1 {
                assert(all[j] == before[j]);
            }
        }
        assert forall|i: int| 0 <= i < sizes.len() implies offset <= #[trigger] all[i] && all[i]
            + sizes[i] <= offset + total(sizes) by {
            if i < sizes.len() - 1 {
                assert(all[i] == before[i]);
                assert(sizes.drop_last()[i] == sizes[i]);
            }
        }
    }
}

/// How files are inserted.
#[derive(Debug)]
pub enum InsertLayout {
    /// All into the main database.
    Single { files: Vec<FileEntry> },
    /// Effect files into databases of their own, the others into the main one.
    Parallel { groups: Vec<Vec<FileEntry>>, bases: Vec<i64>, main: Vec<FileEntry>, main_base: i64 },
}

#[verifier::loop_isolation(false)]
fn divide_files(files: Vec<FileEntry>) -> (r: (Vec<FileEntry>, Vec<FileEntry>))
    ensures
        r.0.deep_view() == files_where(files.deep_view(), true),
        r.1.deep_view() == files_where(files.deep_view(), false),
{
    let ghost all = files.deep_view();
    let mut from = backward(files);
    let mut effects: Vec<FileEntry> = Vec::new();
    let mut others: Vec<FileEntry> = Vec::new();
    let n: usize = from.len();
    let mut k: usize = 0;
    assert(effects.deep_view() =~= files_where(all.take(0), true));
    assert(others.deep_view() =~= files_where(all.take(0), false));
    while k < n
        invariant
            k <= n,
            n == all.len(),
            from@.len() == n - k,
            forall|i: int|
                0 <= i < from@.len() ==> (#[trigger] from@[i]).deep_view() == all[n - 1 - i],
            effects.deep_view() == files_where(all.take(k as int), true),
            others.deep_view() == files_where(all.take(k as int), false),
        decreases n - k,
    {
        assert(all.take(k + 1).drop_last() =~= all.take(k as int));
        let ghost a = effects.deep_view();
        let ghost b = others.deep_view();
        match from.pop() {
            Some(file) => {
                assert(file.deep_view() == all[k as int]);
                if is_effect_file(&file) {
                    effects.push(file);
                    assert(effects.deep_view() =~= a.push(file.deep_view()));
                } else {
                    others.push(file);
                    assert(others.deep_view() =~= b.push(file.deep_view()));
                }
            },
            None => {},
        }
        k += 1;
    }
    assert(all.take(k as int) =~= all);
    (effects, others)
}

/// Files in the opposite order.
#[verifier::loop_isolation(false)]
fn backward(files: Vec<FileEntry>) -> (r: Vec<FileEntry>)
    ensures
        r@.len() == files@.len(),
        forall|i: int|
            0 <= i < r@.len() ==> (#[trigger] r@[i]).deep_view() == files.deep_view()[files@.len()
                - 1 - i],
{
    let ghost all = files@;
    let mut from = files;
    let mut r: Vec<FileEntry> = Vec::new();
    while from.len() > 0
        invariant
            from@.len() + r@.len() == all.len(),
            from@ == all.take(from@.len() as int),
            forall|i: int| 0 <= i < r@.len() ==> #[trigger] r@[i] == all[all.len() - 1 - i],
        decreases from@.len(),
    {
        match from.pop() {
            Some(file) => {
                r.push(file);
            },
            None => {},
        }
        assert(from@ =~= all.take(from@.len() as int));
    }
    r
}

/// The sizes of groups.
pub open spec fn sizes_of(groups: Seq<Seq<FileModel>>) -> Seq<nat> {
    Seq::new(groups.len(), |i: int| groups[i].len())
}

/// How files are inserted: in one go, unless there are many effect files. Numbers
/// go to the effect files first.
pub fn plan_insert(files: Vec<FileEntry>, id_offset: i64) -> (r: InsertLayout)
    requires
        files@.len() <= i64::MAX,
        id_offset + files@.len() <= i64::MAX,
    ensures
        ({
            let all = files.deep_view();
            let effects = files_where(all, true);
            if effects.len() < 200 {
                r matches InsertLayout::Single { files: f } && f.deep_view() == all
            } else {
                &&& r matches InsertLayout::Parallel { groups, bases, main, main_base }
                &&& groups.deep_view() == chunked(effects, effects.len())
                &&& bases@.len() == groups@.len()
                &&& forall|i: int|
                    0 <= i < bases@.len() ==> #[trigger] bases@[i] == id_bases(
                        sizes_of(groups.deep_view()),
                        id_offset as int,
                    )[i]
                &&& main.deep_view() == files_where(all, false)
                &&& main_base == id_offset + effects.len()
            }
        }),
{
    let ghost all = files.deep_view();
    assert(all.len() == files@.len());
    let count: usize = count_effects(&files);
    let parts: usize = num_effect_partitions(count);
    if parts == 0 {
        return InsertLayout::Single { files };
    }
    proof {
        law_files_divided(all);
    }
    let (effects, main) = divide_files(files);
    let n: usize = effects.len();
    assert(n == effects.deep_view().len());
    let main_base: i64 = id_offset + n as i64;
    let groups: Vec<Vec<FileEntry>> = vec![effects];
    let bases: Vec<i64> = vec![id_offset];
    proof {
        assert(groups.deep_view() =~= seq![effects.deep_view()]);
        let sizes = sizes_of(groups.deep_view());
        assert(sizes.drop_last() =~= Seq::<nat>::empty());
        reveal_with_fuel(id_bases, 2);
        assert(total(sizes.drop_last()) == 0);
        assert(id_bases(sizes, id_offset as int)[0] == id_offset);
    }
    InsertLayout::Parallel { groups, bases, main, main_base }
}

#[verifier::loop_isolation(false)]
fn count_effects(files: &Vec<FileEntry>) -> (r: usize)
    ensures
        r == files_where(files.deep_view(), true).len(),
{
    let ghost all = files.deep_view();
    let mut r: usize = 0;
    let mut i: usize = 0;
    while i < files.len()
        invariant
            i <= files@.len(),
            r <= i,
            all == files.deep_view(),
            r == files_where(all.take(i as int), true).len(),
        decreases files@.len() - i,
    {
        assert(all.take(i + 1).drop_last() =~= all.take(i as int));
        assert(all[i as int] == files@[i as int].deep_view());
        if is_effect_file(&files[i]) {
            r += 1;
        }
        i += 1;
    }
    assert(all.take(i as int) =~= all);
    r
}

/// The number of a file: the base of its group, and its place from one on.
pub fn file_id_at(base: i64, index: usize) -> (r: i64)
    requires
        base + index < i64::MAX,
        index < i64::MAX,
    ensures
        r == base + index + 1,
{
    base + index as i64 + 1
}

/// The number of threads that read files, of those that the machine has: at most
/// eight, and at most `max`.
pub fn parse_threads(available: Option<usize>, max: Option<usize>) -> (r: usize)
    ensures
        r == ({
            let have = match available {
                Some(n) => n,
                None => 4usize,
            };
            let capped = if have < 8 {
                have
            } else {
                8usize
            };
            match max {
                Some(m) => if m < capped {
                    m
                } else {
                    capped
                },
                None => capped,
            }
        }),
{
    let have: usize = match available {
        Some(n) => n,
        None => 4,
    };
    let capped: usize = if have < 8 {
        have
    } else {
        8
    };
    match max {
        Some(m) => if m < capped {
            m
        } else {
            capped
        },
        None => capped,
    }
}

/// The threads for each of `partitions` databases: an equal share, and at least
/// one.
pub fn shared_threads(available: Option<usize>, partitions: usize) -> (r: usize)
    requires
        partitions > 0,
    ensures
        ({
            let have = match available {
                Some(n) => n,
                None => 4usize,
            };
            let capped = if have < 8 {
                have
            } else {
                8usize
            };
            r == (if capped / partitions > 1 {
                capped / partitions
            } else {
                1usize
            })
        }),
{
    let capped: usize = parse_threads(available, None);
    let share: usize = capped / partitions;
    if share > 1 {
        share
    } else {
        1
    }
}

// ---------------------------------------------------------------------------
// Sources
// ---------------------------------------------------------------------------

/// The modules of files, each once.
pub open spec fn modules_of(files: Seq<FileModel>) -> Seq<Seq<char>>
    decreases files.len(),
{
    if files.len() == 0 {
        Seq::empty()
    } else {
        textmap::with_member(modules_of(files.drop_last()), files.last().mod_name)
    }
}

/// The modules of files, each once, in order. Databases that are filled side by
/// side give the same numbers to the same modules.
pub open spec fn source_names(files: Seq<FileModel>) -> Seq<Seq<char>> {
    order::stable_sort(modules_of(files), order::rank::<String>())
}

/// The modules of files, each once, in order.
#[verifier::loop_isolation(false)]
pub fn collect_source_names(files: &Vec<FileEntry>) -> (r: Vec<String>)
    ensures
        r.deep_view() == source_names(files.deep_view()),
{
    let ghost all = files.deep_view();
    let mut names: Vec<String> = Vec::new();
    assert(names.deep_view() =~= modules_of(all.take(0)));
    let mut i: usize = 0;
    while i < files.len()
        invariant
            i <= files@.len(),
            all == files.deep_view(),
            names.deep_view() == modules_of(all.take(i as int)),
        decreases files@.len() - i,
    {
        assert(all.take(i + 1).drop_last() =~= all.take(i as int));
        assert(all[i as int] == files@[i as int].deep_view());
        add_member(&mut names, files[i].mod_name.as_str());
        i += 1;
    }
    assert(all.take(i as int) =~= all);
    sort_ranked(names)
}

/// The statements that number modules from one on.
pub open spec fn source_rows(names: Seq<Seq<char>>) -> Seq<StatementModel> {
    Seq::new(
        names.len(),
        |i: int|
            StatementModel {
                what: "Pre-populate _sources"@,
                ..batches::source_row((i + 1) as i64, names[i])
            },
    )
}

/// The statements that number modules from one on.
#[verifier::loop_isolation(false)]
pub fn pre_populate_sources(names: &Vec<String>) -> (r: Vec<Statement>)
    requires
        names@.len() < i64::MAX,
    ensures
        r.deep_view() == source_rows(names.deep_view()),
{
    let ghost want = source_rows(names.deep_view());
    let mut r: Vec<Statement> = Vec::new();
    assert(r.deep_view() =~= want.take(0));
    let mut i: usize = 0;
    while i < names.len()
        invariant
            i <= names@.len(),
            r.deep_view() == want.take(i as int),
        decreases names@.len() - i,
    {
        let id: i64 = i as i64 + 1;
        let params: Vec<SqlValue> = vec![SqlValue::Integer(id), text_value(names[i].as_str())];
        assert(names.deep_view()[i as int] == names@[i as int]@);
        assert(params.deep_view() =~= want[i as int].params);
        let st = Statement {
            what: owned("Pre-populate _sources"),
            sql: owned("INSERT OR IGNORE INTO _sources (id, name) VALUES (?1, ?2)"),
            params,
        };
        let ghost before = r.deep_view();
        r.push(st);
        assert(r.deep_view() =~= before.push(st.deep_view()));
        assert(want.take(i + 1) =~= want.take(i as int).push(want[i as int]));
        i += 1;
    }
    assert(want.take(i as int) =~= want);
    r
}

// ---------------------------------------------------------------------------
// Counts
// ---------------------------------------------------------------------------

/// What came of inserting files.
#[derive(Debug, Clone, Copy, PartialEq, Eq, Structural)]
pub struct PopulateCounts {
    pub total_rows: u64,
    pub row_errors: u64,
    pub file_errors: u64,
}

impl PopulateCounts {
    /// Nothing was inserted.
    pub fn new() -> (r: Self)
        ensures
            r == (PopulateCounts { total_rows: 0, row_errors: 0, file_errors: 0 }),
    {
        PopulateCounts { total_rows: 0, row_errors: 0, file_errors: 0 }
    }

    /// Together with what came of other files.
    pub open spec fn plus(self, other: PopulateCounts) -> PopulateCounts {
        PopulateCounts {
            total_rows: sum_or_max(self.total_rows, other.total_rows),
            row_errors: sum_or_max(self.row_errors, other.row_errors),
            file_errors: sum_or_max(self.file_errors, other.file_errors),
        }
    }

    /// Together with what came of other files.
    pub fn with(&self, other: &PopulateCounts) -> (r: Self)
        ensures
            r == self.plus(*other),
    {
        PopulateCounts {
            total_rows: sum_counts(self.total_rows, other.total_rows),
            row_errors: sum_counts(self.row_errors, other.row_errors),
            file_errors: sum_counts(self.file_errors, other.file_errors),
        }
    }
}

/// What comes of a file: the numbers of its rows and of its errors, unless it
/// fails as a whole.
pub open spec fn file_counts(outcome: Result<(u64, u64), String>) -> PopulateCounts {
    match outcome {
        Ok((rows, errors)) => PopulateCounts {
            total_rows: rows,
            row_errors: errors,
            file_errors: 0,
        },
        Err(_) => PopulateCounts { total_rows: 0, row_errors: 0, file_errors: 1 },
    }
}

/// What comes of files together.
pub open spec fn all_file_counts(outcomes: Seq<Result<(u64, u64), String>>) -> PopulateCounts
    decreases outcomes.len(),
{
    if outcomes.len() == 0 {
        PopulateCounts { total_rows: 0, row_errors: 0, file_errors: 0 }
    } else {
        all_file_counts(outcomes.drop_last()).plus(file_counts(outcomes.last()))
    }
}

/// What comes of files that are inserted one after another: a file that fails
/// does not stop the others.
#[verifier::loop_isolation(false)]
pub fn run_pipeline_insert(outcomes: &Vec<Result<(u64, u64), String>>) -> (r: PopulateCounts)
    ensures
        r == all_file_counts(outcomes@),
{
    let ghost all = outcomes@;
    let mut r = PopulateCounts::new();
    let mut i: usize = 0;
    assert(all.take(0) =~= Seq::<Result<(u64, u64), String>>::empty());
    while i < outcomes.len()
        invariant
            i <= outcomes@.len(),
            all == outcomes@,
            r == all_file_counts(all.take(i as int)),
        decreases outcomes@.len() - i,
    {
        assert(all.take(i + 1).drop_last() =~= all.take(i as int));
        let one = match &outcomes[i] {
            Ok((rows, errors)) => PopulateCounts {
                total_rows: *rows,
                row_errors: *errors,
                file_errors: 0,
            },
            Err(_) => PopulateCounts { total_rows: 0, row_errors: 0, file_errors: 1 },
        };
        r = r.with(&one);
        i += 1;
    }
    assert(all.take(i as int) =~= all);
    r
}

/// No row of any table.
pub open spec fn no_rows(tables: Seq<(Seq<char>, TableModel)>) -> Seq<(Seq<char>, u64)> {
    Seq::new(tables.len(), |i: int| (tables[i].0, 0u64))
}

/// A count for each table, with no row counted yet.
#[verifier::loop_isolation(false)]
pub fn zero_counts(schema: &DiscoveredSchema) -> (r: TextMap<u64>)
    ensures
        r.deep_view() == no_rows(schema.deep_view().tables),
{
    let ghost all = schema.deep_view().tables;
    let ghost want = no_rows(all);
    let mut r: TextMap<u64> = TextMap::new();
    assert(r.deep_view() =~= want.take(0));
    let mut i: usize = 0;
    while i < schema.tables.entries.len()
        invariant
            i <= schema.tables.entries@.len(),
            all == schema.tables.deep_view(),
            r.deep_view() == want.take(i as int),
        decreases schema.tables.entries@.len() - i,
    {
        let entry = &schema.tables.entries[i];
        assert(all[i as int] == (entry.0@, entry.1.deep_view()));
        let ghost before = r.deep_view();
        r.entries.push((entry.0.clone(), 0));
        assert(r.deep_view() =~= before.push((entry.0@, 0u64)));
        assert(want.take(i + 1) =~= want.take(i as int).push(want[i as int]));
        i += 1;
    }
    assert(want.take(i as int) =~= want);
    r
}

/// Counts with those of another database.
pub open spec fn added_counts(counts: Seq<(Seq<char>, u64)>, more: Seq<(Seq<char>, u64)>) -> Seq<
    (Seq<char>, u64),
>
    decreases more.len(),
{
    if more.len() == 0 {
        counts
    } else {
        let before = added_counts(counts, more.drop_last());
        let n = match textmap::value_of(before, more.last().0) {
            Some(n) => n,
            None => 0,
        };
        textmap::with_value(before, more.last().0, sum_or_max(n, more.last().1))
    }
}

/// The sum of two counts, as far as it can be held.
pub open spec fn sum_or_max(a: u64, b: u64) -> u64 {
    if a + b <= u64::MAX {
        (a + b) as u64
    } else {
        u64::MAX
    }
}

fn sum_counts(a: u64, b: u64) -> (r: u64)
    ensures
        r == sum_or_max(a, b),
{
    if b <= u64::MAX - a {
        a + b
    } else {
        u64::MAX
    }
}

/// Adds the counts of another database.
#[verifier::loop_isolation(false)]
pub fn add_counts(counts: &mut TextMap<u64>, more: &TextMap<u64>)
    ensures
        final(counts).deep_view() == added_counts(old(counts).deep_view(), more.deep_view()),
{
    let ghost start = counts.deep_view();
    let ghost all = more.deep_view();
    let mut i: usize = 0;
    while i < more.entries.len()
        invariant
            i <= more.entries@.len(),
            all == more.deep_view(),
            counts.deep_view() == added_counts(start, all.take(i as int)),
        decreases more.entries@.len() - i,
    {
        assert(all.take(i + 1).drop_last() =~= all.take(i as int));
        let entry = &more.entries[i];
        assert(all[i as int] == (entry.0@, entry.1));
        let n: u64 = match counts.get(entry.0.as_str()) {
            Some(n) => *n,
            None => 0,
        };
        counts.insert(entry.0.clone(), sum_counts(n, entry.1));
        i += 1;
    }
    assert(all.take(i as int) =~= all);
}

/// What came of the files that went into one database.
pub struct PartitionResult {
    pub counts: PopulateCounts,
    /// The number of rows of each table.
    pub row_counts: TextMap<u64>,
}

/// What a result of a database says.
pub struct PartitionModel {
    pub counts: PopulateCounts,
    pub row_counts: Seq<(Seq<char>, u64)>,
}

impl DeepView for PartitionResult {
    type V = PartitionModel;

    open spec fn deep_view(&self) -> PartitionModel {
        PartitionModel { counts: self.counts, row_counts: self.row_counts.deep_view() }
    }
}

/// What came of the main database and of others that were merged into it.
pub open spec fn merged_result(main: PartitionModel, effects: Seq<PartitionModel>) -> PartitionModel
    decreases effects.len(),
{
    if effects.len() == 0 {
        main
    } else {
        let before = merged_result(main, effects.drop_last());
        PartitionModel {
            counts: before.counts.plus(effects.last().counts),
            row_counts: added_counts(before.row_counts, effects.last().row_counts),
        }
    }
}

/// What came of databases that were filled side by side, once those of effects
/// are merged into the main one in order.
#[verifier::loop_isolation(false)]
pub fn run_parallel_insert(main: PartitionResult, effects: &Vec<PartitionResult>) -> (r:
    PartitionResult)
    ensures
        r.deep_view() == merged_result(main.deep_view(), effects.deep_view()),
{
    let ghost all = effects.deep_view();
    let ghost start = main.deep_view();
    let mut counts = main.counts;
    let mut row_counts = main.row_counts;
    let mut i: usize = 0;
    assert(all.take(0) =~= Seq::<PartitionModel>::empty());
    while i < effects.len()
        invariant
            i <= effects@.len(),
            all == effects.deep_view(),
            counts == merged_result(start, all.take(i as int)).counts,
            row_counts.deep_view() == merged_result(start, all.take(i as int)).row_counts,
        decreases effects@.len() - i,
    {
        assert(all.take(i + 1).drop_last() =~= all.take(i as int));
        assert(all[i as int] == effects@[i as int].deep_view());
        counts = counts.with(&effects[i].counts);
        add_counts(&mut row_counts, &effects[i].row_counts);
        i += 1;
    }
    assert(all.take(i as int) =~= all);
    PartitionResult { counts, row_counts }
}

// ---------------------------------------------------------------------------
// Merging
// ---------------------------------------------------------------------------

/// A path between single quotes.
pub open spec fn quoted_path(path: Seq<char>) -> Seq<char> {
    "'"@ + text::replaced(path, "'"@, "''"@) + "'"@
}

/// The path between single quotes.
pub fn quote_path(path: &str) -> (r: String)
    ensures
        r@ == quoted_path(path@),
{
    proof {
        reveal_strlit("'");
    }
    let body = replace_all(path, "'", "''");
    let mut r = owned("'");
    r.append(body.as_str());
    r.append("'");
    r
}

/// The statement that attaches a database to be merged.
pub fn attach_partition(path: &str) -> (r: String)
    ensures
        r@ == "ATTACH DATABASE "@ + quoted_path(path@) + " AS effect_db"@,
{
    let quoted = quote_path(path);
    let mut r = owned("ATTACH DATABASE ");
    r.append(quoted.as_str());
    r.append(" AS effect_db");
    r
}

/// The statement that writes the database to a file of its own.
pub fn vacuum_into(path: &str) -> (r: String)
    ensures
        r@ == "VACUUM INTO "@ + quoted_path(path@),
{
    let quoted = quote_path(path);
    let mut r = owned("VACUUM INTO ");
    r.append(quoted.as_str());
    r
}

/// Whether a table got rows.
pub open spec fn populated(counts: Seq<(Seq<char>, u64)>, table: Seq<char>) -> bool {
    match textmap::value_of(counts, table) {
        Some(n) => n > 0,
        None => false,
    }
}

fn is_populated(counts: &TextMap<u64>, table: &str) -> (r: bool)
    ensures
        r == populated(counts.deep_view(), table@),
{
    match counts.get(table) {
        Some(n) => *n > 0,
        None => false,
    }
}

/// The statement that copies the rows of a table.
pub open spec fn copy_sql(table: Seq<char>) -> Seq<char> {
    "INSERT OR IGNORE INTO main.\""@ + table + "\" SELECT * FROM effect_db.\""@ + table + "\""@
}

fn copy_table(table: &str) -> (r: String)
    ensures
        r@ == copy_sql(table@),
{
    let mut r = owned("INSERT OR IGNORE INTO main.\"");
    r.append(table);
    r.append("\" SELECT * FROM effect_db.\"");
    r.append(table);
    r.append("\"");
    r
}

/// The statements that copy the data tables which got rows.
pub open spec fn table_copies(
    tables: Seq<(Seq<char>, TableModel)>,
    counts: Seq<(Seq<char>, u64)>,
) -> Seq<Seq<char>>
    decreases tables.len(),
{
    if tables.len() == 0 {
        Seq::empty()
    } else {
        let before = table_copies(tables.drop_last(), counts);
        if populated(counts, tables.last().0) {
            before.push(copy_sql(tables.last().0))
        } else {
            before
        }
    }
}

/// The statements that copy the junction tables whose parents got rows.
pub open spec fn junction_copies(
    junctions: Seq<JunctionModel>,
    counts: Seq<(Seq<char>, u64)>,
) -> Seq<Seq<char>>
    decreases junctions.len(),
{
    if junctions.len() == 0 {
        Seq::empty()
    } else {
        let before = junction_copies(junctions.drop_last(), counts);
        if populated(counts, junctions.last().parent_table) {
            before.push(copy_sql(junctions.last().table_name))
        } else {
            before
        }
    }
}

/// The statements that bring the rows of an attached database into the main
/// one: its files, and the tables that got rows.
#[verifier::loop_isolation(false)]
pub fn merge_partition(schema: &DiscoveredSchema, counts: &TextMap<u64>) -> (r: Vec<String>)
    ensures
        r.deep_view() == seq![
            "INSERT INTO main._source_files (file_id, path, file_type, mod_name, region_id, row_count, file_size) SELECT file_id, path, file_type, mod_name, region_id, row_count, file_size FROM effect_db._source_files"@,
        ] + table_copies(schema.deep_view().tables, counts.deep_view()) + junction_copies(
            schema.deep_view().junction_tables,
            counts.deep_view(),
        ),
{
    let ghost tables = schema.deep_view().tables;
    let ghost junctions = schema.deep_view().junction_tables;
    let ghost cm = counts.deep_view();
    let mut r: Vec<String> = Vec::new();
    r.push(
        owned(
            "INSERT INTO main._source_files (file_id, path, file_type, mod_name, region_id, row_count, file_size) SELECT file_id, path, file_type, mod_name, region_id, row_count, file_size FROM effect_db._source_files",
        ),
    );
    let ghost head = r.deep_view();
    assert(head =~= seq![
        "INSERT INTO main._source_files (file_id, path, file_type, mod_name, region_id, row_count, file_size) SELECT file_id, path, file_type, mod_name, region_id, row_count, file_size FROM effect_db._source_files"@,
    ]);
    assert(head + table_copies(tables.take(0), cm) =~= head);
    let mut i: usize = 0;
    while i < schema.tables.entries.len()
        invariant
            i <= schema.tables.entries@.len(),
            tables == schema.tables.deep_view(),
            cm == counts.deep_view(),
            r.deep_view() == head + table_copies(tables.take(i as int), cm),
        decreases schema.tables.entries@.len() - i,
    {
        assert(tables.take(i + 1).drop_last() =~= tables.take(i as int));
        let entry = &schema.tables.entries[i];
        assert(tables[i as int] == (entry.0@, entry.1.deep_view()));
        let ghost before = r.deep_view();
        if is_populated(counts, entry.0.as_str()) {
            let line = copy_table(entry.0.as_str());
            r.push(line);
            assert(r.deep_view() =~= before.push(line@));
            assert(r.deep_view() =~= head + table_copies(tables.take(i + 1), cm));
        }
        i += 1;
    }
    assert(tables.take(i as int) =~= tables);
    let ghost middle = r.deep_view();
    assert(middle + junction_copies(junctions.take(0), cm) =~= middle);
    let mut j: usize = 0;
    while j < schema.junction_tables.len()
        invariant
            j <= schema.junction_tables@.len(),
            junctions == schema.junction_tables.deep_view(),
            cm == counts.deep_view(),
            r.deep_view() == middle + junction_copies(junctions.take(j as int), cm),
        decreases schema.junction_tables@.len() - j,
    {
        assert(junctions.take(j + 1).drop_last() =~= junctions.take(j as int));
        let jt = &schema.junction_tables[j];
        assert(junctions[j as int] == jt.deep_view());
        let ghost before = r.deep_view();
        if is_populated(counts, jt.parent_table.as_str()) {
            let line = copy_table(jt.table_name.as_str());
            r.push(line);
            assert(r.deep_view() =~= before.push(line@));
            assert(r.deep_view() =~= middle + junction_copies(junctions.take(j + 1), cm));
        }
        j += 1;
    }
    assert(junctions.take(j as int) =~= junctions);
    r
}

} // verus!
