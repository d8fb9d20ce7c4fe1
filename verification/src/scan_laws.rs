//! What holds of the entries that are put together from rows.

use vstd::prelude::*;
use crate::discovery_laws;
use crate::models::{AttributeModel, ChildModel, EntryModel, GroupModel, LsxEntry};
use crate::scan;
use crate::scan::{LinkRowsModel, RegionRowsModel, StatsEntryModel, StatsRowsModel};
use crate::select;
use crate::select::CellModel;
use crate::text;
use crate::textmap;
use crate::textmap::TextMap;

verus! {

// ---------------------------------------------------------------------------
// Attributes and keys
// ---------------------------------------------------------------------------

/// What a row holds in a column, where that is not empty.
pub open spec fn held(cells: Seq<CellModel>, i: int) -> Option<Seq<char>> {
    if 0 <= i < cells.len() && select::cell_text(cells[i]) is Some && select::cell_text(
        cells[i],
    )->0.len() > 0 {
        select::cell_text(cells[i])
    } else {
        None
    }
}

/// Whether no column stands twice.
pub open spec fn no_doubles(columns: Seq<Seq<char>>) -> bool {
    forall|i: int, j: int|
        0 <= i < j < columns.len() ==> #[trigger] columns[i] != #[trigger] columns[j]
}

proof fn lemma_attrs(
    columns: Seq<Seq<char>>,
    types: Seq<(Seq<char>, Seq<char>)>,
    cells: Seq<CellModel>,
    n: int,
    c: Seq<char>,
)
    requires
        0 <= n <= columns.len(),
        no_doubles(columns),
    ensures
        ({
            let attrs = scan::row_attrs(columns, types, cells, n);
            &&& forall|i: int|
                0 <= i < n && #[trigger] columns[i] == c ==> match held(cells, i) {
                    Some(v) => textmap::value_of(attrs, c) matches Some(a) && a.value == v
                        && a.attr_type == match textmap::value_of(types, c) {
                        Some(t) => t,
                        None => "LSString"@,
                    },
                    None => !textmap::has_key(attrs, c),
                }
            &&& (forall|i: int| 0 <= i < n ==> #[trigger] columns[i] != c) ==> !textmap::has_key(
                attrs,
                c,
            )
        }),
    decreases n,
{
    if n > 0 {
        lemma_attrs(columns, types, cells, n - 1, c);
        let before = scan::row_attrs(columns, types, cells, n - 1);
        let last = columns[n - 1];
        if held(cells, n - 1) is Some {
            discovery_laws::lemma_set(
                before,
                last,
                AttributeModel {
                    attr_type: match textmap::value_of(types, last) {
                        Some(t) => t,
                        None => "LSString"@,
                    },
                    value: held(cells, n - 1)->0,
                },
                c,
            );
        }
        if last == c {
            assert forall|i: int| 0 <= i < n - 1 implies #[trigger] columns[i] != c by {}
        }
    } else {
        textmap::lemma_key_pos(scan::row_attrs(columns, types, cells, 0), c);
    }
}

/// An entry has an attribute for each column that its row holds something in, with that as
/// its value and the known type of the column, and no others.
pub proof fn law_row_becomes_attributes(
    node_id: Seq<char>,
    columns: Seq<Seq<char>>,
    types: Seq<(Seq<char>, Seq<char>)>,
    cells: Seq<CellModel>,
    c: Seq<char>,
)
    requires
        no_doubles(columns),
    ensures
        ({
            let e = scan::row_entry(node_id, columns, types, cells);
            &&& e.node_id == node_id
            &&& e.children.len() == 0
            &&& !e.commented
            &&& forall|i: int|
                0 <= i < columns.len() && #[trigger] columns[i] == c ==> match held(cells, i) {
                    Some(v) => textmap::value_of(e.attributes, c) matches Some(a) && a.value == v
                        && a.attr_type == match textmap::value_of(types, c) {
                        Some(t) => t,
                        None => "LSString"@,
                    },
                    None => !textmap::has_key(e.attributes, c),
                }
            &&& (forall|i: int| 0 <= i < columns.len() ==> #[trigger] columns[i] != c)
                ==> !textmap::has_key(e.attributes, c)
        }),
{
    lemma_attrs(columns, types, cells, columns.len() as int, c);
}

/// Whether a column tells a row from others, and the row holds something in it.
pub open spec fn tells_row(columns: Seq<Seq<char>>, cells: Seq<CellModel>, i: int) -> bool {
    (columns[i] == "UUID"@ || columns[i] == "MapKey"@) && held(cells, i) is Some
}

proof fn lemma_row_key(columns: Seq<Seq<char>>, cells: Seq<CellModel>, n: int)
    requires
        0 <= n <= columns.len(),
    ensures
        forall|i: int|
            0 <= i < n && #[trigger] tells_row(columns, cells, i) && (forall|j: int|
                i < j < n ==> !(#[trigger] tells_row(columns, cells, j))) ==> scan::row_key(
                columns,
                cells,
                n,
            ) == held(cells, i)->0,
        (forall|i: int| 0 <= i < n ==> !(#[trigger] tells_row(columns, cells, i)))
            ==> scan::row_key(columns, cells, n).len() == 0,
    decreases n,
{
    if n > 0 {
        lemma_row_key(columns, cells, n - 1);
        assert(held(cells, n - 1) == scan::row_value(cells, n - 1));
        if tells_row(columns, cells, n - 1) {
            assert forall|i: int|
                0 <= i < n && #[trigger] tells_row(columns, cells, i) && (forall|j: int|
                    i < j < n ==> !(#[trigger] tells_row(columns, cells, j))) implies scan::row_key(
                columns,
                cells,
                n,
            ) == held(cells, i)->0 by {
                if i < n - 1 {
                    assert(!tells_row(columns, cells, n - 1));
                }
            }
        } else {
            assert forall|i: int|
                0 <= i < n && #[trigger] tells_row(columns, cells, i) && (forall|j: int|
                    i < j < n ==> !(#[trigger] tells_row(columns, cells, j))) implies scan::row_key(
                columns,
                cells,
                n,
            ) == held(cells, i)->0 by {
                assert(i < n - 1);
            }
        }
    }
}

/// An entry is told from others by the last `UUID` or `MapKey` that its row holds.
pub proof fn law_row_tells_its_key(
    node_id: Seq<char>,
    columns: Seq<Seq<char>>,
    types: Seq<(Seq<char>, Seq<char>)>,
    cells: Seq<CellModel>,
)
    ensures
        ({
            let e = scan::row_entry(node_id, columns, types, cells);
            let n = columns.len() as int;
            &&& forall|i: int|
                0 <= i < n && #[trigger] tells_row(columns, cells, i) && (forall|j: int|
                    i < j < n ==> !(#[trigger] tells_row(columns, cells, j))) ==> e.uuid == held(
                    cells,
                    i,
                )->0
            &&& (forall|i: int| 0 <= i < n ==> !(#[trigger] tells_row(columns, cells, i)))
                ==> e.uuid.len() == 0
        }),
{
    lemma_row_key(columns, cells, columns.len() as int);
}

/// Each row with a key becomes an entry, unless a later row has the same key.
pub proof fn law_last_row_counts(
    node_id: Seq<char>,
    columns: Seq<Seq<char>>,
    types: Seq<(Seq<char>, Seq<char>)>,
    rows: Seq<Seq<CellModel>>,
    i: int,
)
    requires
        0 <= i < rows.len(),
        scan::row_entry(node_id, columns, types, rows[i]).uuid.len() > 0,
        forall|j: int|
            i < j < rows.len() ==> scan::row_entry(node_id, columns, types, #[trigger] rows[j]).uuid
                != scan::row_entry(node_id, columns, types, rows[i]).uuid,
    ensures
        textmap::value_of(
            scan::row_entries(node_id, columns, types, rows),
            scan::row_entry(node_id, columns, types, rows[i]).uuid,
        ) == Some(scan::row_entry(node_id, columns, types, rows[i])),
    decreases rows.len(),
{
    let d = rows.drop_last();
    let before = scan::row_entries(node_id, columns, types, d);
    let mine = scan::row_entry(node_id, columns, types, rows[i]);
    let last = scan::row_entry(node_id, columns, types, rows.last());
    discovery_laws::lemma_set(before, last.uuid, last, mine.uuid);
    if i < d.len() {
        assert(d[i] == rows[i]);
        assert forall|j: int| i < j < d.len() implies scan::row_entry(
            node_id,
            columns,
            types,
            #[trigger] d[j],
        ).uuid != mine.uuid by {
            assert(d[j] == rows[j]);
        }
        law_last_row_counts(node_id, columns, types, d, i);
        assert(rows[rows.len() - 1] == rows.last());
    }
}

// ---------------------------------------------------------------------------
// Children
// ---------------------------------------------------------------------------

/// The members of a group.
pub open spec fn members(groups: Seq<GroupModel>, id: Seq<char>) -> Seq<ChildModel>
    decreases groups.len(),
{
    if groups.len() == 0 {
        Seq::empty()
    } else if groups[0].group_id == id {
        groups[0].entries
    } else {
        members(groups.drop_first(), id)
    }
}

/// The keys of the children that pairs link to a parent, in order.
pub open spec fn linked(pairs: Seq<(Seq<char>, Seq<char>)>, parent: Seq<char>) -> Seq<Seq<char>>
    decreases pairs.len(),
{
    if pairs.len() == 0 {
        Seq::empty()
    } else if pairs.last().0 == parent {
        linked(pairs.drop_last(), parent).push(pairs.last().1)
    } else {
        linked(pairs.drop_last(), parent)
    }
}

/// Children of a kind with given keys.
pub open spec fn children_with(node_id: Seq<char>, keys: Seq<Seq<char>>) -> Seq<ChildModel> {
    Seq::new(keys.len(), |i: int| ChildModel { node_id, object_guid: keys[i] })
}

proof fn lemma_members_skip(groups: Seq<GroupModel>, id: Seq<char>, from: int)
    requires
        0 <= from <= groups.len(),
    ensures
        ({
            let g = scan::group_at(groups, id, from);
            &&& from <= g <= groups.len()
            &&& g < groups.len() ==> groups[g].group_id == id && members(groups.skip(from), id)
                == groups[g].entries
            &&& g == groups.len() ==> members(groups.skip(from), id).len() == 0
            &&& forall|k: int| from <= k < g ==> (#[trigger] groups[k]).group_id != id
        }),
    decreases groups.len() - from,
{
    if from < groups.len() {
        assert(groups.skip(from)[0] == groups[from]);
        assert(groups.skip(from).drop_first() =~= groups.skip(from + 1));
        if groups[from].group_id != id {
            lemma_members_skip(groups, id, from + 1);
        }
    }
}

proof fn lemma_members_same(
    a: Seq<GroupModel>,
    b: Seq<GroupModel>,
    id: Seq<char>,
)
    requires
        a.len() <= b.len(),
        forall|k: int| 0 <= k < a.len() ==> (#[trigger] a[k]).group_id == b[k].group_id,
        forall|k: int|
            0 <= k < a.len() && (#[trigger] a[k]).group_id == id ==> a[k].entries == b[k].entries,
        forall|k: int| a.len() <= k < b.len() ==> (#[trigger] b[k]).group_id != id,
    ensures
        members(a, id) == members(b, id),
    decreases b.len(),
{
    if a.len() > 0 {
        assert(a[0].group_id == b[0].group_id);
        if a[0].group_id != id {
            let c = a.drop_first();
            let d = b.drop_first();
            assert forall|k: int| 0 <= k < c.len() implies (#[trigger] c[k]).group_id
                == d[k].group_id by {
                assert(c[k] == a[k + 1]);
            }
            assert forall|k: int|
                0 <= k < c.len() && (#[trigger] c[k]).group_id == id implies c[k].entries
                == d[k].entries by {
                assert(c[k] == a[k + 1]);
            }
            assert forall|k: int| c.len() <= k < d.len() implies (#[trigger] d[k]).group_id
                != id by {
                assert(d[k] == b[k + 1]);
            }
            lemma_members_same(c, d, id);
        }
    } else if b.len() > 0 {
        assert(b[0].group_id != id);
        let d = b.drop_first();
        assert forall|k: int| a.len() <= k < d.len() implies (#[trigger] d[k]).group_id != id by {
            assert(d[k] == b[k + 1]);
        }
        lemma_members_same(a, d, id);
    }
}

/// One more child goes to the end of its group, and to no other.
pub proof fn law_child_joins_its_group(
    groups: Seq<GroupModel>,
    id: Seq<char>,
    child: ChildModel,
    other: Seq<char>,
)
    ensures
        members(scan::with_child(groups, id, child), id) == members(groups, id).push(child),
        other != id ==> members(scan::with_child(groups, id, child), other) == members(
            groups,
            other,
        ),
{
    let r = scan::with_child(groups, id, child);
    assert(groups.skip(0) =~= groups);
    assert(r.skip(0) =~= r);
    lemma_members_skip(groups, id, 0);
    lemma_members_skip(r, id, 0);
    let g = scan::group_at(groups, id, 0);
    let h = scan::group_at(r, id, 0);
    if g < groups.len() {
        assert(r[g].group_id == id);
        if h < g {
            assert(r[h] == groups[h]);
        }
        assert(h == g);
        if other != id {
            lemma_members_same(groups, r, other);
        }
    } else {
        assert(r[g].group_id == id);
        if h < g {
            assert(r[h] == groups[h]);
        }
        assert(h == g);
        assert(seq![child] =~= Seq::<ChildModel>::empty().push(child));
        assert(members(groups, id) =~= Seq::<ChildModel>::empty());
        if other != id {
            lemma_members_same(groups, r, other);
        }
    }
}

/// Whether an entry is another one but for its children.
pub open spec fn same_but_children(a: EntryModel, b: EntryModel) -> bool {
    &&& a.uuid == b.uuid
    &&& a.node_id == b.node_id
    &&& a.attributes == b.attributes
    &&& a.commented == b.commented
    &&& a.region_id == b.region_id
}

proof fn lemma_link(
    entries: Seq<(Seq<char>, EntryModel)>,
    parent: Seq<char>,
    group: Seq<char>,
    child: ChildModel,
    key: Seq<char>,
)
    ensures
        ({
            let r = scan::with_link(entries, parent, group, child);
            &&& textmap::has_key(r, key) <==> textmap::has_key(entries, key)
            &&& key != parent ==> textmap::value_of(r, key) == textmap::value_of(entries, key)
            &&& key == parent ==> (textmap::value_of(entries, key) matches Some(e) ==> (
            textmap::value_of(r, key) matches Some(n) && same_but_children(n, e) && n.children
                == scan::with_child(e.children, group, child)))
        }),
{
    textmap::lemma_key_pos(entries, parent);
    if textmap::has_key(entries, parent) {
        let i = textmap::key_pos(entries, parent)->0;
        let e = entries[i].1;
        let n = EntryModel { children: scan::with_child(e.children, group, child), ..e };
        assert(scan::with_link(entries, parent, group, child) =~= textmap::with_value(
            entries,
            parent,
            n,
        ));
        discovery_laws::lemma_set(entries, parent, n, key);
    }
}

/// The pairs of a junction give each entry its children, in order: they stand behind those
/// that their group has, and nothing else of the entry changes.
pub proof fn law_pairs_give_children(
    entries: Seq<(Seq<char>, EntryModel)>,
    group: Seq<char>,
    node_id: Seq<char>,
    pairs: Seq<(Seq<char>, Seq<char>)>,
    key: Seq<char>,
    other: Seq<char>,
)
    ensures
        ({
            let r = scan::with_pairs(entries, group, node_id, pairs);
            &&& textmap::has_key(r, key) <==> textmap::has_key(entries, key)
            &&& textmap::value_of(entries, key) matches Some(e) ==> (textmap::value_of(
                r,
                key,
            ) matches Some(n) && same_but_children(n, e) && members(n.children, group) == members(
                e.children,
                group,
            ) + children_with(node_id, linked(pairs, key)) && (other != group ==> members(
                n.children,
                other,
            ) == members(e.children, other)))
        }),
    decreases pairs.len(),
{
    let r = scan::with_pairs(entries, group, node_id, pairs);
    if pairs.len() == 0 {
        if textmap::has_key(entries, key) {
            let e = textmap::value_of(entries, key)->0;
            assert(members(e.children, group) + children_with(node_id, linked(pairs, key))
                =~= members(e.children, group));
        }
    } else {
        let d = pairs.drop_last();
        let before = scan::with_pairs(entries, group, node_id, d);
        let child = ChildModel { node_id, object_guid: pairs.last().1 };
        law_pairs_give_children(entries, group, node_id, d, key, other);
        lemma_link(before, pairs.last().0, group, child, key);
        if textmap::has_key(entries, key) && pairs.last().0 == key {
            let e = textmap::value_of(entries, key)->0;
            let b = textmap::value_of(before, key)->0;
            law_child_joins_its_group(b.children, group, child, other);
            assert(children_with(node_id, linked(d, key)).push(child) =~= children_with(
                node_id,
                linked(pairs, key),
            ));
            assert((members(e.children, group) + children_with(node_id, linked(d, key))).push(child)
                =~= members(e.children, group) + children_with(node_id, linked(pairs, key)));
        }
    }
}

/// A junction is named after its table and the group of the children.
pub proof fn law_junction_names_group(table: Seq<char>, group: Seq<char>)
    ensures
        scan::group_of(table, table + "__to__"@ + group) == group,
{
    let j = table + "__to__"@ + group;
    let head = table + "__to__"@;
    assert(head =~= j.subrange(0, head.len() as int));
    assert(j.skip(head.len() as int) =~= group);
}

/// The children that several junctions give to a parent in a group, in order.
pub open spec fn all_children(
    table: Seq<char>,
    junctions: Seq<LinkRowsModel>,
    group: Seq<char>,
    parent: Seq<char>,
) -> Seq<ChildModel>
    decreases junctions.len(),
{
    if junctions.len() == 0 {
        Seq::empty()
    } else {
        let before = all_children(table, junctions.drop_last(), group, parent);
        let j = junctions.last();
        if scan::group_of(table, j.junction) == group {
            before + children_with(
                match j.node_id {
                    Some(n) => n,
                    None => group,
                },
                linked(j.pairs, parent),
            )
        } else {
            before
        }
    }
}

proof fn lemma_junctions(
    entries: Seq<(Seq<char>, EntryModel)>,
    table: Seq<char>,
    junctions: Seq<LinkRowsModel>,
    key: Seq<char>,
    group: Seq<char>,
)
    ensures
        ({
            let r = scan::with_junctions(entries, table, junctions);
            &&& textmap::has_key(r, key) <==> textmap::has_key(entries, key)
            &&& textmap::value_of(entries, key) matches Some(e) ==> (textmap::value_of(
                r,
                key,
            ) matches Some(n) && same_but_children(n, e) && members(n.children, group) == members(
                e.children,
                group,
            ) + all_children(table, junctions, group, key))
        }),
    decreases junctions.len(),
{
    if junctions.len() == 0 {
        if textmap::has_key(entries, key) {
            let e = textmap::value_of(entries, key)->0;
            assert(members(e.children, group) + all_children(table, junctions, group, key)
                =~= members(e.children, group));
        }
    } else {
        let d = junctions.drop_last();
        let j = junctions.last();
        let before = scan::with_junctions(entries, table, d);
        let g = scan::group_of(table, j.junction);
        let node_id = match j.node_id {
            Some(n) => n,
            None => g,
        };
        lemma_junctions(entries, table, d, key, group);
        law_pairs_give_children(before, g, node_id, j.pairs, key, group);
        if textmap::has_key(entries, key) {
            let e = textmap::value_of(entries, key)->0;
            let more = children_with(node_id, linked(j.pairs, key));
            let old_ones = all_children(table, d, group, key);
            assert((members(e.children, group) + old_ones) + more =~= members(e.children, group) + (
            old_ones + more));
        }
    }
}

/// The entries of a region are those of its rows, each with the children that the
/// junctions link to it.
pub proof fn law_region_entries_have_children(r: RegionRowsModel, key: Seq<char>, group: Seq<char>)
    ensures
        ({
            let own = scan::row_entries(r.node_id, r.columns, scan::types_of(r.types), r.rows);
            let all = scan::region_entries(r);
            &&& textmap::has_key(all, key) <==> textmap::has_key(own, key)
            &&& textmap::value_of(own, key) matches Some(e) ==> (textmap::value_of(
                all,
                key,
            ) matches Some(n) && same_but_children(n, e) && members(n.children, group) == members(
                e.children,
                group,
            ) + all_children(r.table, r.junctions, group, key))
        }),
{
    let own = scan::row_entries(r.node_id, r.columns, scan::types_of(r.types), r.rows);
    lemma_junctions(own, r.table, r.junctions, key, group);
}

/// The type of a column is the last that is known of it.
pub proof fn law_last_type_counts(rows: Seq<(Seq<char>, Option<Seq<char>>)>, i: int)
    requires
        0 <= i < rows.len(),
        rows[i].1 is Some,
        forall|j: int|
            i < j < rows.len() && (#[trigger] rows[j]).0 == rows[i].0 ==> rows[j].1 is None,
    ensures
        textmap::value_of(scan::types_of(rows), rows[i].0) == rows[i].1,
    decreases rows.len(),
{
    let d = rows.drop_last();
    let before = scan::types_of(d);
    let last = rows.last();
    assert(rows[rows.len() - 1] == last);
    if last.1 is Some {
        discovery_laws::lemma_set(before, last.0, last.1->0, rows[i].0);
    }
    if i < d.len() {
        assert(d[i] == rows[i]);
        assert forall|j: int|
            i < j < d.len() && (#[trigger] d[j]).0 == d[i].0 implies d[j].1 is None by {
            assert(d[j] == rows[j]);
        }
        law_last_type_counts(d, i);
    }
}

// ---------------------------------------------------------------------------
// Stats entries
// ---------------------------------------------------------------------------

proof fn lemma_stats_entry(
    entry_type: Seq<char>,
    columns: Seq<Seq<char>>,
    cells: Seq<CellModel>,
    n: int,
    i: int,
)
    requires
        0 <= i < n <= columns.len(),
        no_doubles(columns),
    ensures
        ({
            let e = scan::stats_entry(entry_type, columns, cells, n);
            let c = columns[i];
            &&& e.entry_type == entry_type
            &&& c == "_entry_name"@ ==> e.name == text::or_empty(held(cells, i))
            &&& c == "_using"@ ==> e.parent == held(cells, i)
            &&& !"_"@.is_prefix_of(c) ==> textmap::value_of(e.data, c) == held(cells, i)
        }),
    decreases n,
{
    let before = scan::stats_entry(entry_type, columns, cells, n - 1);
    let last = columns[n - 1];
    let c = columns[i];
    reveal_strlit("_");
    reveal_strlit("_entry_name");
    reveal_strlit("_using");
    assert("_"@ =~= "_entry_name"@.subrange(0, 1));
    assert("_"@ =~= "_using"@.subrange(0, 1));
    assert("_entry_name"@.len() == 11 && "_using"@.len() == 6);
    if held(cells, n - 1) is Some {
        discovery_laws::lemma_set(before.data, last, held(cells, n - 1)->0, c);
    }
    lemma_entry_type(entry_type, columns, cells, n);
    if i < n - 1 {
        lemma_stats_entry(entry_type, columns, cells, n - 1, i);
        assert(columns[i] != columns[n - 1]);
    } else {
        assert forall|j: int| 0 <= j < n - 1 implies #[trigger] columns[j] != c by {}
        lemma_no_field(entry_type, columns, cells, n - 1, c);
    }
}

proof fn lemma_entry_type(
    entry_type: Seq<char>,
    columns: Seq<Seq<char>>,
    cells: Seq<CellModel>,
    n: int,
)
    ensures
        scan::stats_entry(entry_type, columns, cells, n).entry_type == entry_type,
    decreases n,
{
    if n > 0 {
        lemma_entry_type(entry_type, columns, cells, n - 1);
    }
}

proof fn lemma_no_field(
    entry_type: Seq<char>,
    columns: Seq<Seq<char>>,
    cells: Seq<CellModel>,
    n: int,
    c: Seq<char>,
)
    requires
        0 <= n <= columns.len(),
        forall|j: int| 0 <= j < n ==> #[trigger] columns[j] != c,
    ensures
        !textmap::has_key(scan::stats_entry(entry_type, columns, cells, n).data, c),
    decreases n,
{
    if n > 0 {
        lemma_no_field(entry_type, columns, cells, n - 1, c);
        let before = scan::stats_entry(entry_type, columns, cells, n - 1);
        if held(cells, n - 1) is Some {
            discovery_laws::lemma_set(before.data, columns[n - 1], held(cells, n - 1)->0, c);
        }
    } else {
        textmap::lemma_key_pos(scan::stats_entry(entry_type, columns, cells, 0).data, c);
    }
}

/// A stats entry has the name, the parent and the fields that its row holds, and no others.
pub proof fn law_row_becomes_stats_entry(
    entry_type: Seq<char>,
    columns: Seq<Seq<char>>,
    cells: Seq<CellModel>,
    i: int,
    other: Seq<char>,
)
    requires
        no_doubles(columns),
        0 <= i < columns.len(),
        forall|j: int| 0 <= j < columns.len() ==> #[trigger] columns[j] != other,
    ensures
        ({
            let e = scan::stats_entry(entry_type, columns, cells, columns.len() as int);
            let c = columns[i];
            &&& e.entry_type == entry_type
            &&& c == "_entry_name"@ ==> e.name == text::or_empty(held(cells, i))
            &&& c == "_using"@ ==> e.parent == held(cells, i)
            &&& !"_"@.is_prefix_of(c) ==> textmap::value_of(e.data, c) == held(cells, i)
            &&& !textmap::has_key(e.data, other)
        }),
{
    lemma_stats_entry(entry_type, columns, cells, columns.len() as int, i);
    lemma_no_field(entry_type, columns, cells, columns.len() as int, other);
}

/// What a row of a stats table says of an entry.
pub open spec fn entry_in(t: StatsRowsModel, k: int) -> StatsEntryModel {
    scan::stats_entry(
        t.table.skip(7),
        t.columns,
        t.rows[k],
        t.columns.len() as int,
    )
}

proof fn lemma_stats_rows(
    known: Seq<(Seq<char>, StatsEntryModel)>,
    t: StatsRowsModel,
    n: int,
    name: Seq<char>,
)
    requires
        0 <= n <= t.rows.len(),
        "stats__"@.is_prefix_of(t.table),
        name.len() > 0,
    ensures
        ({
            let r = scan::with_stats_rows(known, t, n);
            &&& (forall|k: int| 0 <= k < n ==> (#[trigger] entry_in(t, k)).name != name)
                ==> textmap::value_of(r, name) == textmap::value_of(known, name)
            &&& forall|k: int|
                0 <= k < n && (#[trigger] entry_in(t, k)).name == name && (forall|j: int|
                    k < j < n ==> (#[trigger] entry_in(t, j)).name != name) ==> textmap::value_of(
                    r,
                    name,
                ) == Some(entry_in(t, k))
        }),
    decreases n,
{
    if n > 0 {
        lemma_stats_rows(known, t, n - 1, name);
        reveal_strlit("stats__");
        let before = scan::with_stats_rows(known, t, n - 1);
        let e = entry_in(t, n - 1);
        discovery_laws::lemma_set(before, e.name, e, name);
        let r = scan::with_stats_rows(known, t, n);
        assert forall|k: int|
            0 <= k < n && (#[trigger] entry_in(t, k)).name == name && (forall|j: int|
                k < j < n ==> (#[trigger] entry_in(t, j)).name != name) implies textmap::value_of(
            r,
            name,
        ) == Some(entry_in(t, k)) by {
            if k < n - 1 {
                assert(entry_in(t, n - 1).name != name);
            }
        }
    }
}

/// A stats entry is that of the last row with its name, in the last table that has one; its
/// type is that of the table.
pub proof fn law_last_stats_row_counts(tables: Seq<StatsRowsModel>, i: int, k: int)
    requires
        0 <= i < tables.len(),
        0 <= k < tables[i].rows.len(),
        forall|a: int| 0 <= a < tables.len() ==> "stats__"@.is_prefix_of((#[trigger] tables[a]).table),
        entry_in(tables[i], k).name.len() > 0,
        forall|j: int|
            k < j < tables[i].rows.len() ==> (#[trigger] entry_in(tables[i], j)).name != entry_in(
                tables[i],
                k,
            ).name,
        forall|a: int, j: int|
            i < a < tables.len() && 0 <= j < tables[a].rows.len() ==> (#[trigger] entry_in(
                tables[a],
                j,
            )).name != entry_in(tables[i], k).name,
    ensures
        textmap::value_of(scan::stats_entries(tables), entry_in(tables[i], k).name) == Some(
            entry_in(tables[i], k),
        ),
    decreases tables.len(),
{
    let d = tables.drop_last();
    let last = tables.last();
    let name = entry_in(tables[i], k).name;
    let n = tables.len() - 1;
    assert(tables[n] == last);
    assert("stats__"@.is_prefix_of(tables[n].table));
    lemma_stats_rows(scan::stats_entries(d), last, last.rows.len() as int, name);
    if i < n {
        assert(d[i] == tables[i]);
        assert forall|a: int| 0 <= a < d.len() implies "stats__"@.is_prefix_of(
            (#[trigger] d[a]).table,
        ) by {
            assert(d[a] == tables[a]);
        }
        assert forall|a: int, j: int|
            i < a < d.len() && 0 <= j < d[a].rows.len() implies (#[trigger] entry_in(
            d[a],
            j,
        )).name != name by {
            assert(d[a] == tables[a]);
            assert(entry_in(tables[a], j).name != name);
        }
        law_last_stats_row_counts(d, i, k);
        assert forall|j: int| 0 <= j < last.rows.len() implies (#[trigger] entry_in(last, j)).name
            != name by {
            assert(entry_in(tables[n], j).name != name);
        }
    } else {
        assert(entry_in(last, k).name == name);
        assert forall|j: int| k < j < last.rows.len() implies (#[trigger] entry_in(last, j)).name
            != name by {
            assert(entry_in(tables[i], j).name != name);
        }
    }
}

// ---------------------------------------------------------------------------
// Entries of several regions
// ---------------------------------------------------------------------------

proof fn lemma_with_all<T>(m: Seq<(Seq<char>, T)>, other: Seq<(Seq<char>, T)>, k: Seq<char>)
    requires
        textmap::distinct(other),
    ensures
        textmap::value_of(textmap::with_all(m, other), k) == if textmap::has_key(other, k) {
            textmap::value_of(other, k)
        } else {
            textmap::value_of(m, k)
        },
    decreases other.len(),
{
    if other.len() > 0 {
        let d = other.drop_last();
        assert forall|i: int, j: int| 0 <= i < j < d.len() implies #[trigger] d[i].0
            != #[trigger] d[j].0 by {
            assert(other[i].0 != other[j].0);
        }
        lemma_with_all(m, d, k);
        discovery_laws::lemma_set(textmap::with_all(m, d), other.last().0, other.last().1, k);
        textmap::lemma_key_pos(other, k);
        textmap::lemma_key_pos(d, k);
        if other.last().0 == k {
            assert forall|j: int| 0 <= j < other.len() - 1 implies (#[trigger] other[j]).0 != k by {
                assert(other[j].0 != other[other.len() - 1].0);
            }
            textmap::lemma_key_pos_is(other, k, other.len() - 1);
        }
    }
}

/// Of the entries of several regions, that of the last region that could be read and has
/// one counts.
pub proof fn law_last_region_counts(
    results: Seq<Result<TextMap<LsxEntry>, String>>,
    i: int,
    k: Seq<char>,
)
    requires
        0 <= i < results.len(),
        results[i] matches Ok(m) && textmap::has_key(m.deep_view(), k),
        forall|j: int|
            0 <= j < results.len() ==> ((#[trigger] results[j]) matches Ok(m) ==> textmap::distinct(
                m.deep_view(),
            )),
        forall|j: int|
            i < j < results.len() ==> ((#[trigger] results[j]) matches Ok(m) ==> !textmap::has_key(
                m.deep_view(),
                k,
            )),
    ensures
        results[i] matches Ok(m) && textmap::value_of(scan::merged_entries(results), k)
            == textmap::value_of(m.deep_view(), k),
    decreases results.len(),
{
    let d = results.drop_last();
    let n = results.len() - 1;
    assert(results[n] == results.last());
    if results.last() is Ok {
        lemma_with_all(scan::merged_entries(d), results.last()->Ok_0.deep_view(), k);
    }
    if i < n {
        assert(d[i] == results[i]);
        assert forall|j: int| 0 <= j < d.len() implies ((#[trigger] d[j]) matches Ok(m)
            ==> textmap::distinct(m.deep_view())) by {
            assert(d[j] == results[j]);
        }
        assert forall|j: int| i < j < d.len() implies ((#[trigger] d[j]) matches Ok(m)
            ==> !textmap::has_key(m.deep_view(), k)) by {
            assert(d[j] == results[j]);
        }
        law_last_region_counts(d, i, k);
    }
}

} // verus!
