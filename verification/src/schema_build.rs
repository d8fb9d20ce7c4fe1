//! From what the files told to the description of all tables.

use vstd::prelude::*;
use crate::discovery::{glued, table_for_node, DiscoveryModel, FileDiscovery, RawModel, RawTableInfo};
use crate::discovery;
use crate::files;
use crate::files::sanitize_id;
use crate::fixed_tables;
use crate::fixed_tables::discover_fixed;
use crate::order;
use crate::order::{sort_ranked, text_before, Ranked};
use crate::references;
use crate::references::{compute_fk_constraints, rename, Names};
use crate::schema::{ColumnDef, ColumnModel, DiscoveredSchema, JunctionDef, JunctionModel,
    PkStrategy, SchemaModel, TableModel, TableSchema};
use crate::text;
use crate::text::{copy_list, copy_opt, eq_ignore_case, owned, starts_with, text_eq};
use crate::textmap;
use crate::textmap::{add_member, place_of, TextMap};
use crate::types;
use crate::types::sqlite_type;

verus! {

// ---------------------------------------------------------------------------
// Consolidation
// ---------------------------------------------------------------------------

/// The tables, and the new names of those that were renamed.
pub struct Renaming {
    pub tables: Seq<(Seq<char>, RawModel)>,
    pub renames: Seq<(Seq<char>, Seq<char>)>,
}

/// The name of the only table of a region.
pub open spec fn region_table(region_id: Seq<char>) -> Seq<char> {
    "lsx__"@ + files::sanitized(region_id)
}

/// A region that holds a single kind of node gives its name to the table.
pub open spec fn after_consolidation(st: Renaming, p: (Seq<char>, Seq<Seq<char>>)) -> Renaming {
    let old_name = discovery::node_table(p.0, p.1[0]);
    let new_name = region_table(p.0);
    let info = textmap::value_of(st.tables, old_name);
    if p.1.len() == 1 && old_name != new_name && info is Some {
        Renaming {
            tables: textmap::with_value(
                textmap::without_key(st.tables, old_name),
                new_name,
                RawModel { region_id: Some(p.0), node_id: Some(p.1[0]), ..info->0 },
            ),
            renames: textmap::with_value(st.renames, old_name, new_name),
        }
    } else {
        st
    }
}

/// The tables after all regions were consolidated.
pub open spec fn consolidated_tables(
    tables: Seq<(Seq<char>, RawModel)>,
    regions: Seq<(Seq<char>, Seq<Seq<char>>)>,
) -> Renaming
    decreases regions.len(),
{
    if regions.len() == 0 {
        Renaming { tables, renames: Seq::empty() }
    } else {
        after_consolidation(consolidated_tables(tables, regions.drop_last()), regions.last())
    }
}

/// Parent tables under their new names.
pub open spec fn renamed_parents(
    parents: Seq<Seq<char>>,
    renames: Seq<(Seq<char>, Seq<char>)>,
) -> Seq<Seq<char>>
    decreases parents.len(),
{
    if parents.len() == 0 {
        Seq::empty()
    } else {
        textmap::with_member(
            renamed_parents(parents.drop_last(), renames),
            references::renamed(renames, parents.last()),
        )
    }
}

/// The tables with their parent tables under their new names.
pub open spec fn with_renamed_parents(
    tables: Seq<(Seq<char>, RawModel)>,
    renames: Seq<(Seq<char>, Seq<char>)>,
) -> Seq<(Seq<char>, RawModel)> {
    tables.map_values(
        |p: (Seq<char>, RawModel)|
            (
                p.0,
                RawModel { parent_tables: renamed_parents(p.1.parent_tables, renames), ..p.1 },
            ),
    )
}

fn consolidate_region(
    tables: &mut TextMap<RawTableInfo>,
    renames: &mut TextMap<String>,
    region_id: &String,
    nodes: &Vec<String>,
)
    ensures
        (Renaming { tables: final(tables).deep_view(), renames: final(renames).deep_view() })
            == after_consolidation(
            Renaming { tables: old(tables).deep_view(), renames: old(renames).deep_view() },
            (region_id@, nodes.deep_view()),
        ),
{
    if nodes.len() != 1 {
        return;
    }
    let node_id = &nodes[0];
    assert(nodes.deep_view()[0] == node_id@);
    let old_name = table_for_node(region_id.as_str(), node_id.as_str());
    let s = sanitize_id(region_id.as_str());
    let new_name = glued("lsx__", s.as_str());
    if text_eq(old_name.as_str(), new_name.as_str()) {
        return;
    }
    if tables.contains_key(old_name.as_str()) {
        if let Some(taken) = tables.remove(old_name.as_str()) {
            let mut info = taken;
            info.region_id = Some(region_id.clone());
            info.node_id = Some(node_id.clone());
            tables.insert(new_name.clone(), info);
            renames.insert(old_name, new_name);
        }
    }
}

#[verifier::loop_isolation(false)]
fn rename_parents(parents: &Vec<String>, renames: &TextMap<String>) -> (r: Vec<String>)
    ensures
        r.deep_view() == renamed_parents(parents.deep_view(), renames.deep_view()),
{
    let ghost all = parents.deep_view();
    let mut r: Vec<String> = Vec::new();
    assert(r.deep_view() =~= renamed_parents(all.take(0), renames.deep_view()));
    let mut i: usize = 0;
    while i < parents.len()
        invariant
            i <= parents@.len(),
            r.deep_view() == renamed_parents(all.take(i as int), renames.deep_view()),
        decreases parents@.len() - i,
    {
        let n = rename(renames, parents[i].as_str());
        add_member(&mut r, n.as_str());
        assert(all.take(i + 1).drop_last() =~= all.take(i as int));
        i += 1;
    }
    assert(all.take(i as int) =~= all);
    r
}

#[verifier::loop_isolation(false)]
fn consolidate_all(d: &mut FileDiscovery) -> (renames: TextMap<String>)
    ensures
        final(d).deep_view().regions == old(d).deep_view().regions,
        renames.deep_view() == consolidated_tables(
            old(d).deep_view().tables,
            old(d).deep_view().regions,
        ).renames,
        final(d).deep_view().tables == with_renamed_parents(
            consolidated_tables(old(d).deep_view().tables, old(d).deep_view().regions).tables,
            renames.deep_view(),
        ),
{
    let ghost start = d.deep_view();
    let ghost regions = start.regions;
    let mut renames: TextMap<String> = TextMap::new();
    let mut i: usize = 0;
    while i < d.region_node_ids.entries.len()
        invariant
            i <= d.region_node_ids.entries@.len(),
            d.region_node_ids.deep_view() == regions,
            (Renaming { tables: d.tables.deep_view(), renames: renames.deep_view() })
                == consolidated_tables(start.tables, regions.take(i as int)),
        decreases d.region_node_ids.entries@.len() - i,
    {
        let p = &d.region_node_ids.entries[i];
        assert(regions[i as int] == (p.0@, p.1.deep_view()));
        assert(regions.take(i + 1).drop_last() =~= regions.take(i as int));
        consolidate_region(&mut d.tables, &mut renames, &p.0, &p.1);
        i += 1;
    }
    assert(regions.take(i as int) =~= regions);
    let ghost mid = d.tables.deep_view();
    let ghost want = with_renamed_parents(mid, renames.deep_view());
    let mut j: usize = 0;
    while j < d.tables.entries.len()
        invariant
            j <= d.tables.entries@.len(),
            d.tables.entries@.len() == mid.len(),
            d.region_node_ids.deep_view() == regions,
            d.tables.deep_view() == want.take(j as int) + mid.skip(j as int),
        decreases d.tables.entries@.len() - j,
    {
        let ghost before = d.tables.deep_view();
        let ghost held = d.tables.entries@;
        assert(before[j as int] == mid[j as int]);
        assert(before[j as int].1 == held[j as int].1.deep_view());
        let list = rename_parents(&d.tables.entries[j].1.parent_tables, &renames);
        d.tables.entries[j].1.parent_tables = list;
        assert(d.tables.deep_view() =~= before.update(j as int, want[j as int]));
        j += 1;
        assert(d.tables.deep_view() =~= want.take(j as int) + mid.skip(j as int));
    }
    assert(d.tables.deep_view() =~= want);
    renames
}

// ---------------------------------------------------------------------------
// Keys and columns
// ---------------------------------------------------------------------------

/// How the key of a table is determined. A `MapKey` goes before a `UUID`, and
/// a `UUID` only counts where the table does not lie deeper than right below a
/// root.
pub open spec fn key_strategy(
    table: Seq<char>,
    columns: Seq<(Seq<char>, Seq<char>)>,
    has_parent: bool,
    parent_is_root: bool,
) -> PkStrategy {
    if table == "loca__english"@ {
        PkStrategy::ContentUid
    } else if "stats__"@.is_prefix_of(table) {
        PkStrategy::EntryName
    } else if textmap::has_key(columns, "MapKey"@) {
        PkStrategy::MapKey
    } else if textmap::has_key(columns, "UUID"@) && (!has_parent || parent_is_root) {
        PkStrategy::Uuid
    } else if textmap::has_key(columns, "ID"@) {
        PkStrategy::BankId
    } else {
        PkStrategy::Rowid
    }
}

/// How the key of a table is determined.
pub fn determine_pk_strategy(
    table_name: &str,
    columns: &TextMap<String>,
    has_parent: bool,
    parent_is_root: bool,
) -> (r: PkStrategy)
    ensures
        r == key_strategy(table_name@, columns.deep_view(), has_parent, parent_is_root),
{
    if text_eq(table_name, "loca__english") {
        PkStrategy::ContentUid
    } else if starts_with(table_name, "stats__") {
        PkStrategy::EntryName
    } else if columns.contains_key("MapKey") {
        PkStrategy::MapKey
    } else if columns.contains_key("UUID") && (!has_parent || parent_is_root) {
        PkStrategy::Uuid
    } else if columns.contains_key("ID") {
        PkStrategy::BankId
    } else {
        PkStrategy::Rowid
    }
}

/// The description of a column.
pub open spec fn column_of(p: (Seq<char>, Seq<char>)) -> ColumnModel {
    ColumnModel { name: p.0, bg3_type: p.1, sqlite_type: types::affinity(p.1) }
}

/// The columns of a table without its key.
pub open spec fn data_columns(
    columns: Seq<(Seq<char>, Seq<char>)>,
    pk: PkStrategy,
) -> Seq<ColumnModel>
    decreases columns.len(),
{
    if columns.len() == 0 {
        Seq::empty()
    } else {
        let before = data_columns(columns.drop_last(), pk);
        if columns.last().0 == pk.key_column() && pk != PkStrategy::Rowid {
            before
        } else {
            before.push(column_of(columns.last()))
        }
    }
}

/// Whether a column is called the same, up to the case of ASCII letters.
pub open spec fn named_alike(columns: Seq<ColumnModel>, name: Seq<char>) -> bool {
    exists|i: int|
        0 <= i < columns.len() && text::ascii_lowered((#[trigger] columns[i]).name)
            == text::ascii_lowered(name)
}

/// The columns without those that are called like an earlier one: SQLite does
/// not tell the case of column names apart.
pub open spec fn without_doubles(columns: Seq<ColumnModel>) -> Seq<ColumnModel>
    decreases columns.len(),
{
    if columns.len() == 0 {
        columns
    } else {
        let before = without_doubles(columns.drop_last());
        if named_alike(before, columns.last().name) {
            before
        } else {
            before.push(columns.last())
        }
    }
}

impl Ranked for ColumnDef {
    open spec fn ranks_before(a: ColumnModel, b: ColumnModel) -> bool {
        order::text_lt(a.name, b.name)
    }

    fn goes_before(&self, other: &Self) -> (r: bool) {
        text_before(self.name.as_str(), other.name.as_str())
    }
}

/// The data columns of a table, by name.
pub open spec fn table_columns(
    columns: Seq<(Seq<char>, Seq<char>)>,
    pk: PkStrategy,
) -> Seq<ColumnModel> {
    without_doubles(order::stable_sort(data_columns(columns, pk), order::rank::<ColumnDef>()))
}

proof fn lemma_without_doubles(columns: Seq<ColumnModel>)
    requires
        order::in_order(columns, order::rank::<ColumnDef>()),
    ensures
        ({
            let r = without_doubles(columns);
            &&& order::in_order(r, order::rank::<ColumnDef>())
            &&& forall|i: int|
                0 <= i < r.len() ==> (exists|k: int|
                    0 <= k < columns.len() && #[trigger] columns[k] == #[trigger] r[i])
            &&& forall|i: int, j: int|
                0 <= i < j < r.len() ==> text::ascii_lowered((#[trigger] r[i]).name)
                    != text::ascii_lowered((#[trigger] r[j]).name)
        }),
    decreases columns.len(),
{
    if columns.len() > 0 {
        let d = columns.drop_last();
        assert forall|i: int, j: int| 0 <= i < j < d.len() implies !order::rank::<ColumnDef>()(
            #[trigger] d[j],
            #[trigger] d[i],
        ) by {
            assert(d[j] == columns[j] && d[i] == columns[i]);
        }
        lemma_without_doubles(d);
        let before = without_doubles(d);
        let r = without_doubles(columns);
        assert forall|i: int| 0 <= i < r.len() implies (exists|k: int|
            0 <= k < columns.len() && #[trigger] columns[k] == #[trigger] r[i]) by {
            if i < before.len() {
                let k = choose|k: int| 0 <= k < d.len() && #[trigger] d[k] == before[i];
                assert(columns[k] == r[i]);
            } else {
                assert(columns[columns.len() - 1] == r[i]);
            }
        }
        if !named_alike(before, columns.last().name) {
            assert forall|i: int, j: int| 0 <= i < j < r.len() implies !order::rank::<ColumnDef>()(
                #[trigger] r[j],
                #[trigger] r[i],
            ) by {
                if j < before.len() {
                    assert(r[j] == before[j] && r[i] == before[i]);
                } else {
                    let k = choose|k: int| 0 <= k < d.len() && #[trigger] d[k] == before[i];
                    assert(columns[k] == r[i]);
                    assert(columns[columns.len() - 1] == r[j]);
                }
            }
            assert forall|i: int, j: int| 0 <= i < j < r.len() implies text::ascii_lowered(
                (#[trigger] r[i]).name,
            ) != text::ascii_lowered((#[trigger] r[j]).name) by {
                assert(r[i] == before[i]);
                if j < before.len() {
                    assert(r[j] == before[j]);
                }
            }
        }
    }
}

/// The data columns of a table stand in the order of their names, and no two are
/// called the same up to the case of ASCII letters.
pub proof fn law_columns_in_order(columns: Seq<(Seq<char>, Seq<char>)>, pk: PkStrategy)
    ensures
        ({
            let r = table_columns(columns, pk);
            forall|i: int, j: int|
                0 <= i < j < r.len() ==> {
                    &&& order::text_lt((#[trigger] r[i]).name, (#[trigger] r[j]).name)
                    &&& text::ascii_lowered(r[i].name) != text::ascii_lowered(r[j].name)
                }
        }),
{
    let before = order::rank::<ColumnDef>();
    order::lemma_text_orders(before, |c: ColumnModel| c.name);
    order::law_sort_orders(data_columns(columns, pk), before);
    let sorted = order::stable_sort(data_columns(columns, pk), before);
    lemma_without_doubles(sorted);
    let r = table_columns(columns, pk);
    assert forall|i: int, j: int| 0 <= i < j < r.len() implies order::text_lt(
        (#[trigger] r[i]).name,
        (#[trigger] r[j]).name,
    ) && text::ascii_lowered(r[i].name) != text::ascii_lowered(r[j].name) by {
        assert(!before(r[j], r[i]));
        order::lemma_text_lt_total(r[i].name, r[j].name);
    }
}

#[verifier::loop_isolation(false)]
fn collect_columns(columns: &TextMap<String>, pk: PkStrategy) -> (r: Vec<ColumnDef>)
    ensures
        r.deep_view() == data_columns(columns.deep_view(), pk),
{
    let ghost all = columns.deep_view();
    let mut r: Vec<ColumnDef> = Vec::new();
    assert(r.deep_view() =~= data_columns(all.take(0), pk));
    let mut i: usize = 0;
    while i < columns.entries.len()
        invariant
            i <= columns.entries@.len(),
            r.deep_view() == data_columns(all.take(i as int), pk),
        decreases columns.entries@.len() - i,
    {
        let p = &columns.entries[i];
        assert(all[i as int] == (p.0@, p.1@));
        assert(all.take(i + 1).drop_last() =~= all.take(i as int));
        let ghost before = r.deep_view();
        if !(text_eq(p.0.as_str(), pk.pk_column()) && pk != PkStrategy::Rowid) {
            r.push(
                ColumnDef {
                    name: p.0.clone(),
                    bg3_type: p.1.clone(),
                    sqlite_type: owned(sqlite_type(p.1.as_str())),
                },
            );
            assert(r.deep_view() =~= before.push(column_of(all[i as int])));
        }
        i += 1;
    }
    assert(all.take(i as int) =~= all);
    r
}

#[verifier::loop_isolation(false)]
fn has_alike(columns: &Vec<ColumnDef>, name: &str) -> (r: bool)
    ensures
        r == named_alike(columns.deep_view(), name@),
{
    let ghost all = columns.deep_view();
    let mut i: usize = 0;
    while i < columns.len()
        invariant
            i <= columns@.len(),
            forall|k: int|
                0 <= k < i ==> text::ascii_lowered((#[trigger] all[k]).name)
                    != text::ascii_lowered(name@),
        decreases columns@.len() - i,
    {
        assert(all[i as int].name == columns@[i as int].name@);
        if eq_ignore_case(columns[i].name.as_str(), name) {
            return true;
        }
        i += 1;
    }
    false
}

#[verifier::loop_isolation(false)]
fn drop_doubles(columns: &Vec<ColumnDef>) -> (r: Vec<ColumnDef>)
    ensures
        r.deep_view() == without_doubles(columns.deep_view()),
{
    let ghost all = columns.deep_view();
    let mut r: Vec<ColumnDef> = Vec::new();
    assert(r.deep_view() =~= without_doubles(all.take(0)));
    let mut i: usize = 0;
    while i < columns.len()
        invariant
            i <= columns@.len(),
            r.deep_view() == without_doubles(all.take(i as int)),
        decreases columns@.len() - i,
    {
        assert(all.take(i + 1).drop_last() =~= all.take(i as int));
        let ghost before = r.deep_view();
        if !has_alike(&r, columns[i].name.as_str()) {
            r.push(columns[i].clone());
            assert(r.deep_view() =~= before.push(all[i as int]));
        }
        i += 1;
    }
    assert(all.take(i as int) =~= all);
    r
}

// ---------------------------------------------------------------------------
// Tables
// ---------------------------------------------------------------------------

/// Whether one of the parents of a table is a root.
pub open spec fn below_root(
    tables: Seq<(Seq<char>, RawModel)>,
    parents: Seq<Seq<char>>,
) -> bool {
    exists|i: int|
        0 <= i < parents.len() && match textmap::value_of(tables, #[trigger] parents[i]) {
            Some(t) => t.is_root,
            None => false,
        }
}

/// The key of a table.
pub open spec fn key_of(
    tables: Seq<(Seq<char>, RawModel)>,
    name: Seq<char>,
    info: RawModel,
) -> PkStrategy {
    key_strategy(name, info.columns, info.has_parent, below_root(tables, info.parent_tables))
}

/// The description of a table.
pub open spec fn table_of(names: Names, name: Seq<char>, info: RawModel) -> TableModel {
    TableModel {
        table_name: name,
        pk_strategy: key_of(names.tables, name, info),
        source_type: info.source_type,
        region_id: info.region_id,
        node_id: info.node_id,
        columns: table_columns(info.columns, key_of(names.tables, name, info)),
        fk_constraints: references::references(
            name,
            info.columns,
            info.node_id,
            references::column_rules(info.columns),
            names,
        ),
        has_file_id: true,
        parent_tables: info.parent_tables,
    }
}

/// The descriptions of all tables.
pub open spec fn all_tables(names: Names) -> Seq<(Seq<char>, TableModel)> {
    names.tables.map_values(|p: (Seq<char>, RawModel)| (p.0, table_of(names, p.0, p.1)))
}

#[verifier::loop_isolation(false)]
fn lies_below_root(tables: &TextMap<RawTableInfo>, parents: &Vec<String>) -> (r: bool)
    ensures
        r == below_root(tables.deep_view(), parents.deep_view()),
{
    let ghost all = parents.deep_view();
    let mut i: usize = 0;
    while i < parents.len()
        invariant
            i <= parents@.len(),
            forall|k: int|
                0 <= k < i ==> !(match textmap::value_of(tables.deep_view(), #[trigger] all[k]) {
                    Some(t) => t.is_root,
                    None => false,
                }),
        decreases parents@.len() - i,
    {
        assert(all[i as int] == parents@[i as int]@);
        if let Some(t) = tables.get(parents[i].as_str()) {
            if t.is_root {
                return true;
            }
        }
        i += 1;
    }
    false
}

fn build_table(
    tables: &TextMap<RawTableInfo>,
    renames: &TextMap<String>,
    name: &String,
    info: &RawTableInfo,
) -> (r: TableSchema)
    ensures
        r.deep_view() == table_of(
            Names { tables: tables.deep_view(), renames: renames.deep_view() },
            name@,
            info.deep_view(),
        ),
{
    let parent_is_root = lies_below_root(tables, &info.parent_tables);
    let pk = determine_pk_strategy(name.as_str(), &info.columns, info.has_parent, parent_is_root);
    let columns = drop_doubles(&sort_ranked(collect_columns(&info.columns, pk)));
    let fk_constraints = compute_fk_constraints(
        name.as_str(),
        &info.columns,
        &info.node_id,
        tables,
        renames,
    );
    TableSchema {
        table_name: name.clone(),
        pk_strategy: pk,
        source_type: info.source_type.clone(),
        region_id: copy_opt(&info.region_id),
        node_id: copy_opt(&info.node_id),
        columns,
        fk_constraints,
        has_file_id: true,
        parent_tables: copy_list(&info.parent_tables),
    }
}

#[verifier::loop_isolation(false)]
fn build_tables(tables: &TextMap<RawTableInfo>, renames: &TextMap<String>) -> (r: TextMap<
    TableSchema,
>)
    ensures
        r.deep_view() == all_tables(
            Names { tables: tables.deep_view(), renames: renames.deep_view() },
        ),
{
    let ghost want = all_tables(
        Names { tables: tables.deep_view(), renames: renames.deep_view() },
    );
    let mut list: Vec<(String, TableSchema)> = Vec::new();
    let mut i: usize = 0;
    while i < tables.entries.len()
        invariant
            i <= tables.entries@.len(),
            list.deep_view() == want.take(i as int),
        decreases tables.entries@.len() - i,
    {
        let p = &tables.entries[i];
        assert(tables.deep_view()[i as int] == (p.0@, p.1.deep_view()));
        list.push((p.0.clone(), build_table(tables, renames, &p.0, &p.1)));
        i += 1;
        assert(list.deep_view() =~= want.take(i as int));
    }
    assert(want.take(i as int) =~= want);
    TextMap { entries: list }
}

// ---------------------------------------------------------------------------
// Junctions
// ---------------------------------------------------------------------------

/// The table that links a parent table to a child table.
pub open spec fn junction_of(
    parent_name: Seq<char>,
    parent: TableModel,
    child_name: Seq<char>,
    child: TableModel,
) -> JunctionModel {
    let node = match child.node_id {
        Some(n) => n,
        None => child_name,
    };
    JunctionModel {
        table_name: parent_name + "__to__"@ + files::sanitized(node),
        parent_table: parent_name,
        parent_pk_column: parent.pk_strategy.key_column(),
        parent_pk_type: parent.pk_strategy.key_type(),
        child_table: child_name,
        child_pk_column: child.pk_strategy.key_column(),
        child_pk_type: child.pk_strategy.key_type(),
    }
}

/// The junctions of a child table to those of its parents that are tables.
pub open spec fn junctions_of(
    tables: Seq<(Seq<char>, TableModel)>,
    child_name: Seq<char>,
    child: TableModel,
    parents: Seq<Seq<char>>,
) -> Seq<JunctionModel>
    decreases parents.len(),
{
    if parents.len() == 0 {
        Seq::empty()
    } else {
        let before = junctions_of(tables, child_name, child, parents.drop_last());
        match textmap::value_of(tables, parents.last()) {
            Some(parent) => before.push(junction_of(parents.last(), parent, child_name, child)),
            None => before,
        }
    }
}

/// The junctions of several child tables.
pub open spec fn all_junctions(
    tables: Seq<(Seq<char>, TableModel)>,
    children: Seq<(Seq<char>, TableModel)>,
) -> Seq<JunctionModel>
    decreases children.len(),
{
    if children.len() == 0 {
        Seq::empty()
    } else {
        all_junctions(tables, children.drop_last()) + junctions_of(
            tables,
            children.last().0,
            children.last().1,
            children.last().1.parent_tables,
        )
    }
}

impl Ranked for JunctionDef {
    open spec fn ranks_before(a: JunctionModel, b: JunctionModel) -> bool {
        order::text_lt(a.table_name, b.table_name)
    }

    fn goes_before(&self, other: &Self) -> (r: bool) {
        text_before(self.table_name.as_str(), other.table_name.as_str())
    }
}

/// The junctions of all tables, by name.
pub open spec fn sorted_junctions(tables: Seq<(Seq<char>, TableModel)>) -> Seq<JunctionModel> {
    order::stable_sort(all_junctions(tables, tables), order::rank::<JunctionDef>())
}

/// Whether a junction links two tables by their keys.
pub open spec fn links_tables(tables: Seq<(Seq<char>, TableModel)>, j: JunctionModel) -> bool {
    exists|p: int, c: int|
        {
            &&& 0 <= p < tables.len()
            &&& 0 <= c < tables.len()
            &&& j == junction_of(
                (#[trigger] tables[p]).0,
                tables[p].1,
                (#[trigger] tables[c]).0,
                tables[c].1,
            )
        }
}

proof fn lemma_junctions_link(
    tables: Seq<(Seq<char>, TableModel)>,
    c: int,
    parents: Seq<Seq<char>>,
)
    requires
        0 <= c < tables.len(),
    ensures
        ({
            let js = junctions_of(tables, tables[c].0, tables[c].1, parents);
            forall|i: int| 0 <= i < js.len() ==> links_tables(tables, #[trigger] js[i])
        }),
    decreases parents.len(),
{
    if parents.len() > 0 {
        lemma_junctions_link(tables, c, parents.drop_last());
        textmap::lemma_key_pos(tables, parents.last());
        match textmap::key_pos(tables, parents.last()) {
            Some(p) => {
                let j = junction_of(tables[p].0, tables[p].1, tables[c].0, tables[c].1);
                assert(links_tables(tables, j));
                let before = junctions_of(
                    tables,
                    tables[c].0,
                    tables[c].1,
                    parents.drop_last(),
                );
                let js = junctions_of(tables, tables[c].0, tables[c].1, parents);
                assert(js == before.push(j));
                assert forall|i: int| 0 <= i < js.len() implies links_tables(
                    tables,
                    #[trigger] js[i],
                ) by {
                    if i < before.len() {
                        assert(js[i] == before[i]);
                    }
                }
            },
            None => {
                assert(junctions_of(tables, tables[c].0, tables[c].1, parents) == junctions_of(
                    tables,
                    tables[c].0,
                    tables[c].1,
                    parents.drop_last(),
                ));
            },
        }
    } else {
        assert(junctions_of(tables, tables[c].0, tables[c].1, parents).len() == 0);
    }
}

proof fn lemma_all_junctions_link(tables: Seq<(Seq<char>, TableModel)>, n: int)
    requires
        0 <= n <= tables.len(),
    ensures
        ({
            let js = all_junctions(tables, tables.take(n));
            forall|i: int| 0 <= i < js.len() ==> links_tables(tables, #[trigger] js[i])
        }),
    decreases n,
{
    if n > 0 {
        lemma_all_junctions_link(tables, n - 1);
        assert(tables.take(n).drop_last() =~= tables.take(n - 1));
        lemma_junctions_link(tables, n - 1, tables[n - 1].1.parent_tables);
        let before = all_junctions(tables, tables.take(n - 1));
        let more = junctions_of(
            tables,
            tables[n - 1].0,
            tables[n - 1].1,
            tables[n - 1].1.parent_tables,
        );
        let js = all_junctions(tables, tables.take(n));
        assert(js == before + more);
        assert forall|i: int| 0 <= i < js.len() implies links_tables(tables, #[trigger] js[i]) by {
            if i < before.len() {
                assert(js[i] == before[i]);
            } else {
                assert(js[i] == more[i - before.len()]);
            }
        }
    }
}

/// Every junction links two tables of the schema by their keys.
pub proof fn law_junctions_link_tables(tables: Seq<(Seq<char>, TableModel)>)
    ensures
        forall|i: int|
            0 <= i < sorted_junctions(tables).len() ==> links_tables(
                tables,
                #[trigger] sorted_junctions(tables)[i],
            ),
{
    lemma_all_junctions_link(tables, tables.len() as int);
    assert(tables.take(tables.len() as int) =~= tables);
    let js = all_junctions(tables, tables);
    order::lemma_sorted_from(js, order::rank::<JunctionDef>());
    let r = sorted_junctions(tables);
    assert forall|i: int| 0 <= i < r.len() implies links_tables(tables, #[trigger] r[i]) by {
        let k = choose|k: int| 0 <= k < js.len() && js[k] == r[i];
        assert(links_tables(tables, js[k]));
    }
}

/// The lookup with one more junction.
pub open spec fn with_junction(
    lookup: Seq<(Seq<char>, Seq<(Seq<char>, Seq<char>)>)>,
    j: JunctionModel,
) -> Seq<(Seq<char>, Seq<(Seq<char>, Seq<char>)>)> {
    let inner = match textmap::value_of(lookup, j.parent_table) {
        Some(m) => m,
        None => Seq::empty(),
    };
    textmap::with_value(
        lookup,
        j.parent_table,
        textmap::with_value(inner, j.child_table, j.table_name),
    )
}

/// Parent table, child table, junction table.
pub open spec fn junction_lookup(js: Seq<JunctionModel>) -> Seq<
    (Seq<char>, Seq<(Seq<char>, Seq<char>)>),
>
    decreases js.len(),
{
    if js.len() == 0 {
        Seq::empty()
    } else {
        with_junction(junction_lookup(js.drop_last()), js.last())
    }
}

fn make_junction(
    parent_name: &String,
    parent: &TableSchema,
    child_name: &String,
    child: &TableSchema,
) -> (r: JunctionDef)
    ensures
        r.deep_view() == junction_of(
            parent_name@,
            parent.deep_view(),
            child_name@,
            child.deep_view(),
        ),
{
    let node = match &child.node_id {
        Some(n) => sanitize_id(n.as_str()),
        None => sanitize_id(child_name.as_str()),
    };
    let head = glued(parent_name.as_str(), "__to__");
    JunctionDef {
        table_name: glued(head.as_str(), node.as_str()),
        parent_table: parent_name.clone(),
        parent_pk_column: owned(parent.pk_strategy.pk_column()),
        parent_pk_type: owned(parent.pk_strategy.pk_sql_type()),
        child_table: child_name.clone(),
        child_pk_column: owned(child.pk_strategy.pk_column()),
        child_pk_type: owned(child.pk_strategy.pk_sql_type()),
    }
}

#[verifier::loop_isolation(false)]
fn add_junctions(
    tables: &TextMap<TableSchema>,
    child_name: &String,
    child: &TableSchema,
    out: &mut Vec<JunctionDef>,
)
    ensures
        final(out).deep_view() == old(out).deep_view() + junctions_of(
            tables.deep_view(),
            child_name@,
            child.deep_view(),
            child.deep_view().parent_tables,
        ),
{
    let ghost start = out.deep_view();
    let ghost all = child.parent_tables.deep_view();
    let ghost ts = tables.deep_view();
    let mut i: usize = 0;
    assert(out.deep_view() =~= start + junctions_of(ts, child_name@, child.deep_view(), all.take(0)));
    while i < child.parent_tables.len()
        invariant
            i <= child.parent_tables@.len(),
            out.deep_view() == start + junctions_of(
                ts,
                child_name@,
                child.deep_view(),
                all.take(i as int),
            ),
        decreases child.parent_tables@.len() - i,
    {
        let parent_name = &child.parent_tables[i];
        assert(all[i as int] == parent_name@);
        assert(all.take(i + 1).drop_last() =~= all.take(i as int));
        let ghost before = out.deep_view();
        if let Some(parent) = tables.get(parent_name.as_str()) {
            out.push(make_junction(parent_name, parent, child_name, child));
            assert(out.deep_view() =~= before.push(
                junction_of(parent_name@, parent.deep_view(), child_name@, child.deep_view()),
            ));
        }
        i += 1;
        assert(out.deep_view() =~= start + junctions_of(
            ts,
            child_name@,
            child.deep_view(),
            all.take(i as int),
        ));
    }
    assert(all.take(i as int) =~= all);
}

#[verifier::loop_isolation(false)]
fn build_junctions(tables: &TextMap<TableSchema>) -> (r: Vec<JunctionDef>)
    ensures
        r.deep_view() == sorted_junctions(tables.deep_view()),
{
    let ghost ts = tables.deep_view();
    let mut out: Vec<JunctionDef> = Vec::new();
    let mut i: usize = 0;
    assert(out.deep_view() =~= all_junctions(ts, ts.take(0)));
    while i < tables.entries.len()
        invariant
            i <= tables.entries@.len(),
            out.deep_view() == all_junctions(ts, ts.take(i as int)),
        decreases tables.entries@.len() - i,
    {
        let p = &tables.entries[i];
        assert(ts[i as int] == (p.0@, p.1.deep_view()));
        assert(ts.take(i + 1).drop_last() =~= ts.take(i as int));
        add_junctions(tables, &p.0, &p.1, &mut out);
        i += 1;
    }
    assert(ts.take(i as int) =~= ts);
    sort_ranked(out)
}

fn note_junction(lookup: &mut TextMap<TextMap<String>>, j: &JunctionDef)
    ensures
        final(lookup).deep_view() == with_junction(old(lookup).deep_view(), j.deep_view()),
{
    let ghost m = lookup.deep_view();
    match place_of(&lookup.entries, j.parent_table.as_str()) {
        Some(i) => {
            assert(m[i as int].1 == lookup.entries@[i as int].1.deep_view());
            lookup.entries[i].1.insert(j.child_table.clone(), j.table_name.clone());
            proof {
                textmap::lemma_key_pos(m, j.parent_table@);
            }
            assert(lookup.deep_view() =~= with_junction(m, j.deep_view()));
        },
        None => {
            let mut inner: TextMap<String> = TextMap::new();
            inner.insert(j.child_table.clone(), j.table_name.clone());
            lookup.entries.push((j.parent_table.clone(), inner));
            assert(lookup.deep_view() =~= with_junction(m, j.deep_view()));
        },
    }
}

#[verifier::loop_isolation(false)]
fn build_lookup(js: &Vec<JunctionDef>) -> (r: TextMap<TextMap<String>>)
    ensures
        r.deep_view() == junction_lookup(js.deep_view()),
{
    let ghost all = js.deep_view();
    let mut r: TextMap<TextMap<String>> = TextMap::new();
    let mut i: usize = 0;
    while i < js.len()
        invariant
            i <= js@.len(),
            r.deep_view() == junction_lookup(all.take(i as int)),
        decreases js@.len() - i,
    {
        note_junction(&mut r, &js[i]);
        assert(all.take(i + 1).drop_last() =~= all.take(i as int));
        i += 1;
    }
    assert(all.take(i as int) =~= all);
    r
}

// ---------------------------------------------------------------------------
// The whole schema
// ---------------------------------------------------------------------------

/// What several files told, beside the tables that do not depend on files.
pub open spec fn all_seen(files: Seq<DiscoveryModel>) -> DiscoveryModel
    decreases files.len(),
{
    if files.len() == 0 {
        DiscoveryModel { tables: fixed_tables::with_fixed(Seq::empty()), regions: Seq::empty() }
    } else {
        discovery::merged(all_seen(files.drop_last()), files.last())
    }
}

/// The tables that the schema is made from, and their new names.
pub open spec fn final_names(d: DiscoveryModel) -> Names {
    let c = consolidated_tables(d.tables, d.regions);
    Names { tables: with_renamed_parents(c.tables, c.renames), renames: c.renames }
}

/// The schema that what was seen amounts to.
pub open spec fn schema_of(d: DiscoveryModel) -> SchemaModel {
    let names = final_names(d);
    SchemaModel {
        tables: all_tables(names),
        renames: names.renames,
        region_node_ids: d.regions,
        junction_tables: sorted_junctions(all_tables(names)),
        junction_lookup: junction_lookup(sorted_junctions(all_tables(names))),
    }
}

/// The schema of all files together, from what each of them told.
#[verifier::loop_isolation(false)]
pub fn discover_schema(per_file: &Vec<FileDiscovery>) -> (r: DiscoveredSchema)
    ensures
        r.deep_view() == schema_of(all_seen(per_file.deep_view())),
{
    let ghost all = per_file.deep_view();
    let mut d = FileDiscovery::new();
    discover_fixed(&mut d.tables);
    let mut i: usize = 0;
    while i < per_file.len()
        invariant
            i <= per_file@.len(),
            d.deep_view() == all_seen(all.take(i as int)),
        decreases per_file@.len() - i,
    {
        discovery::merge_discovery(&mut d, &per_file[i]);
        assert(all.take(i + 1).drop_last() =~= all.take(i as int));
        i += 1;
    }
    assert(all.take(i as int) =~= all);
    let renames = consolidate_all(&mut d);
    let tables = build_tables(&d.tables, &renames);
    let junction_tables = build_junctions(&tables);
    let lookup = build_lookup(&junction_tables);
    DiscoveredSchema {
        tables,
        renames,
        region_node_ids: d.region_node_ids,
        junction_tables,
        junction_lookup: lookup,
    }
}

} // verus!
