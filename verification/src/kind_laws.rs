//! What holds of the sections and the kinds of nodes that a database tells of.

use vstd::prelude::*;
use crate::infer::NodeSchemaModel;
use crate::list_laws;
use crate::models::SectionModel;
use crate::order;
use crate::schema_query;
use crate::schema_query::{ChildTableModel, SchemaRowsModel, TableRowModel, TypedColumn, TypedModel};
use crate::text;

verus! {

// ---------------------------------------------------------------------------
// Sections
// ---------------------------------------------------------------------------

/// Whether a junction says that it links a child table to a parent table.
pub open spec fn says_link(
    j: (Seq<char>, Seq<char>),
    parent: Seq<char>,
    child: Seq<char>,
) -> bool {
    j.1 == parent + seq![','] + child && list_laws::lacks(parent, ',')
}

/// Whether a row is the last of several that is named after a table.
pub open spec fn is_last_named(rows: Seq<TableRowModel>, k: int, table: Seq<char>) -> bool {
    &&& 0 <= k < rows.len()
    &&& rows[k].table_name == table
    &&& forall|j: int| k < j < rows.len() ==> (#[trigger] rows[j]).table_name != table
}

/// Whether a child of a section is the one that a junction links to it.
pub open spec fn is_child_by(
    rows: Seq<TableRowModel>,
    j: (Seq<char>, Seq<char>),
    parent: Seq<char>,
    c: ChildTableModel,
) -> bool {
    &&& c.junction_table == j.0
    &&& says_link(j, parent, c.child_table)
    &&& forall|k: int| #[trigger]
        is_last_named(rows, k, c.child_table) ==> c.child_node_id == rows[k].node_id
            && c.child_row_count == rows[k].row_count as i32
}

/// Whether the children of a section are those that junctions link to it, in order.
pub open spec fn are_children(
    rows: Seq<TableRowModel>,
    junctions: Seq<(Seq<char>, Seq<char>)>,
    parent: Seq<char>,
    cs: Seq<ChildTableModel>,
) -> bool
    decreases junctions.len(),
{
    if junctions.len() == 0 {
        cs.len() == 0
    } else {
        let j = junctions.last();
        if links_from(j, parent) {
            cs.len() > 0 && is_child_by(rows, j, parent, cs.last()) && are_children(
                rows,
                junctions.drop_last(),
                parent,
                cs.drop_last(),
            )
        } else {
            are_children(rows, junctions.drop_last(), parent, cs)
        }
    }
}

/// Whether a junction links some table to a parent table.
pub open spec fn links_from(j: (Seq<char>, Seq<char>), parent: Seq<char>) -> bool {
    exists|child: Seq<char>| #[trigger] says_link(j, parent, child)
}

proof fn lemma_link_parts(j: (Seq<char>, Seq<char>))
    ensures
        forall|p: Seq<char>, c: Seq<char>| #[trigger]
            says_link(j, p, c) <==> text::halves(j.1, ',') == Some((p, c)),
{
    text::lemma_char_at_or_end(j.1, ',', 0);
    let q = text::char_at_or_end(j.1, ',', 0);
    assert forall|p: Seq<char>, c: Seq<char>| #[trigger] says_link(j, p, c) <==> text::halves(
        j.1,
        ',',
    ) == Some((p, c)) by {
        if says_link(j, p, c) {
            assert(j.1[p.len() as int] == ',');
            if q < p.len() {
                assert(j.1[q] == p[q]);
            }
            assert(j.1.take(q) =~= p);
            assert(j.1.skip(q + 1) =~= c);
        }
        if text::halves(j.1, ',') == Some((p, c)) {
            assert(j.1 =~= p + seq![','] + c);
        }
    }
}

proof fn lemma_facts(rows: Seq<TableRowModel>, table: Seq<char>, n: int, k: int)
    requires
        0 <= k < n <= rows.len(),
        rows[k].table_name == table,
        forall|j: int| k < j < n ==> (#[trigger] rows[j]).table_name != table,
    ensures
        schema_query::table_facts(rows, table, n) == (rows[k].node_id, rows[k].row_count),
    decreases n,
{
    if k < n - 1 {
        lemma_facts(rows, table, n - 1, k);
    }
}

/// The children of a section are those that the junctions link to its table, in order, each
/// with the kind of node and the number of rows of its own table.
pub proof fn law_sections_have_children(
    rows: Seq<TableRowModel>,
    junctions: Seq<(Seq<char>, Seq<char>)>,
    parent: Seq<char>,
)
    ensures
        are_children(
            rows,
            junctions,
            parent,
            schema_query::children_of(rows, junctions, parent),
        ),
    decreases junctions.len(),
{
    if junctions.len() > 0 {
        let d = junctions.drop_last();
        let j = junctions.last();
        let before = schema_query::children_of(rows, d, parent);
        let cs = schema_query::children_of(rows, junctions, parent);
        law_sections_have_children(rows, d, parent);
        lemma_link_parts(j);
        if links_from(j, parent) {
            let child = choose|child: Seq<char>| #[trigger] says_link(j, parent, child);
            assert(text::halves(j.1, ',') == Some((parent, child)));
            assert(cs.drop_last() =~= before);
            assert forall|k: int| #[trigger]
                is_last_named(rows, k, child) implies cs.last().child_node_id == rows[k].node_id
                && cs.last().child_row_count == rows[k].row_count as i32 by {
                lemma_facts(rows, child, rows.len() as int, k);
            }
            assert(is_child_by(rows, j, parent, cs.last()));
        } else {
            assert(text::halves(j.1, ',') matches Some(h) ==> h.0 != parent) by {
                if text::halves(j.1, ',') is Some {
                    let h = text::halves(j.1, ',')->0;
                    assert(says_link(j, h.0, h.1));
                }
            }
        }
    }
}

/// A section tells of its table what the database says of it. Its key is the one that the
/// database knows, where the name of the table can stand in a statement.
pub proof fn law_section_tells_its_table(
    rows: Seq<TableRowModel>,
    junctions: Seq<(Seq<char>, Seq<char>)>,
    i: int,
)
    requires
        0 <= i < rows.len(),
    ensures
        ({
            let s = schema_query::section_of(rows, junctions, i);
            &&& s.region_id == rows[i].region_id
            &&& s.table_name == rows[i].table_name
            &&& s.node_id == rows[i].node_id
            &&& s.source_type == rows[i].source_type
            &&& s.row_count == rows[i].row_count as i32
            &&& rows[i].key is None ==> s.pk_column == "rowid"@
            &&& s.pk_column == "rowid"@ || Some(s.pk_column) == rows[i].key
            &&& (forall|j: int| 0 <= j < i ==> (#[trigger] rows[j]).table_name != rows[i].table_name)
                ==> are_children(rows, junctions, s.table_name, s.children)
        }),
{
    law_sections_have_children(rows, junctions, rows[i].table_name);
}

/// A region feeds the last section that lists it.
pub proof fn law_last_section_is_fed(sections: Seq<SectionModel>, region: Seq<char>, i: int)
    requires
        0 <= i < sections.len(),
        sections[i].region_ids.contains(region),
        forall|j: int|
            i < j < sections.len() ==> !(#[trigger] sections[j]).region_ids.contains(region),
    ensures
        schema_query::section_name(sections, region) == sections[i].name,
    decreases sections.len(),
{
    let d = sections.drop_last();
    if i < d.len() {
        assert(!sections[sections.len() - 1].region_ids.contains(region));
        assert(d[i] == sections[i]);
        assert forall|j: int| i < j < d.len() implies !(#[trigger] d[j]).region_ids.contains(
            region,
        ) by {
            assert(d[j] == sections[j]);
        }
        law_last_section_is_fed(d, region, i);
    }
}

/// A region that no section lists feeds one of its own name.
pub proof fn law_unlisted_region_feeds_its_own(sections: Seq<SectionModel>, region: Seq<char>)
    requires
        forall|j: int|
            0 <= j < sections.len() ==> !(#[trigger] sections[j]).region_ids.contains(region),
    ensures
        schema_query::section_name(sections, region) == region,
    decreases sections.len(),
{
    if sections.len() > 0 {
        let d = sections.drop_last();
        assert(!sections[sections.len() - 1].region_ids.contains(region));
        assert forall|j: int| 0 <= j < d.len() implies !(#[trigger] d[j]).region_ids.contains(
            region,
        ) by {
            assert(d[j] == sections[j]);
        }
        law_unlisted_region_feeds_its_own(d, region);
    }
}

// ---------------------------------------------------------------------------
// Kinds of nodes
// ---------------------------------------------------------------------------

/// Whether a column is one of a table that holds values, and has this type.
pub open spec fn is_typed(
    c: (Seq<char>, Seq<char>, Option<Seq<char>>),
    table: Seq<char>,
    name: Seq<char>,
    ty: Seq<char>,
) -> bool {
    &&& c.0 == table
    &&& c.1 == name
    &&& !"_"@.is_prefix_of(name)
    &&& c.2 matches Some(t) ==> ty == t
    &&& c.2 is None ==> ty == "FixedString"@
}

proof fn lemma_typed(
    columns: Seq<(Seq<char>, Seq<char>, Option<Seq<char>>)>,
    table: Seq<char>,
    m: TypedModel,
)
    ensures
        schema_query::typed_columns(columns, table).contains(m) <==> has_typed(
            columns,
            table,
            m.name,
            m.attr_type,
        ),
    decreases columns.len(),
{
    let r = schema_query::typed_columns(columns, table);
    if columns.len() > 0 {
        let d = columns.drop_last();
        let before = schema_query::typed_columns(d, table);
        lemma_typed(d, table, m);
        let last = columns.last();
        assert(columns[columns.len() - 1] == last);
        if before.contains(m) {
            let k = choose|k: int| 0 <= k < before.len() && before[k] == m;
            assert(r[k] == m);
            let i = choose|i: int|
                0 <= i < d.len() && is_typed(#[trigger] d[i], table, m.name, m.attr_type);
            assert(columns[i] == d[i]);
        }
        if is_typed(last, table, m.name, m.attr_type) {
            assert(r[r.len() - 1] == m);
        }
        if has_typed(columns, table, m.name, m.attr_type) {
            let i = choose|i: int|
                0 <= i < columns.len() && is_typed(
                    #[trigger] columns[i],
                    table,
                    m.name,
                    m.attr_type,
                );
            if i < d.len() {
                assert(d[i] == columns[i]);
                assert(has_typed(d, table, m.name, m.attr_type));
            }
        }
        if r.contains(m) && !before.contains(m) {
            let k = choose|k: int| 0 <= k < r.len() && r[k] == m;
            if k < before.len() {
                assert(before[k] == m);
            }
            assert(is_typed(columns[columns.len() - 1], table, m.name, m.attr_type));
        }
    }
}

/// Whether a table has a column that holds values, of this name and type.
pub open spec fn has_typed(
    columns: Seq<(Seq<char>, Seq<char>, Option<Seq<char>>)>,
    table: Seq<char>,
    name: Seq<char>,
    ty: Seq<char>,
) -> bool {
    exists|i: int| 0 <= i < columns.len() && is_typed(#[trigger] columns[i], table, name, ty)
}

/// Whether a kind of node has an attribute of this name and type.
pub open spec fn has_attribute(s: NodeSchemaModel, name: Seq<char>, ty: Seq<char>) -> bool {
    exists|i: int|
        0 <= i < s.attributes.len() && (#[trigger] s.attributes[i]).name == name
            && s.attributes[i].attr_type == ty
}

proof fn lemma_typed_order()
    ensures
        order::orders(order::rank::<TypedColumn>()),
{
    let before = order::rank::<TypedColumn>();
    assert forall|a: TypedModel, b: TypedModel| #[trigger] before(a, b) implies !before(b, a) by {
        if before(b, a) {
            order::lemma_text_lt_transitive(a.name, b.name, a.name);
            order::lemma_text_lt_irreflexive(a.name);
        }
    }
    assert forall|a: TypedModel, b: TypedModel, c: TypedModel|
        #![trigger before(a, c), before(a, b)]
        #![trigger before(a, c), before(b, c)]
        before(a, c) implies before(a, b) || before(b, c) by {
        order::lemma_text_lt_total(a.name, b.name);
        if schema_query::identifies(a.name) == schema_query::identifies(c.name) && order::text_lt(
            b.name,
            a.name,
        ) {
            order::lemma_text_lt_transitive(b.name, a.name, c.name);
        }
    }
}

/// A kind of node has the attributes that the columns of its table tell of, and no others,
/// each for every row.
pub proof fn law_kind_has_columns(
    rows: SchemaRowsModel,
    sections: Seq<SectionModel>,
    t: TableRowModel,
    name: Seq<char>,
    ty: Seq<char>,
)
    ensures
        ({
            let s = schema_query::region_schema(rows, sections, t);
            &&& has_attribute(s, name, ty) <==> has_typed(rows.columns, t.table_name, name, ty)
            &&& forall|i: int|
                0 <= i < s.attributes.len() ==> (#[trigger] s.attributes[i]).count
                    == t.row_count as u64 && s.attributes[i].examples.len() == 0
            &&& t.node_id == "root"@ ==> s.node_id == t.region_id
            &&& t.node_id != "root"@ ==> s.node_id == t.node_id
            &&& s.sample_count == t.row_count as usize
        }),
{
    let s = schema_query::region_schema(rows, sections, t);
    let typed = schema_query::typed_columns(rows.columns, t.table_name);
    let before = order::rank::<TypedColumn>();
    let sorted = order::stable_sort(typed, before);
    let m = TypedModel { name, attr_type: ty };
    lemma_typed(rows.columns, t.table_name, m);
    lemma_typed_order();
    order::lemma_sorted_holds(typed, before);
    order::lemma_sorted_from(typed, before);
    if has_attribute(s, name, ty) {
        let i = choose|i: int|
            0 <= i < s.attributes.len() && (#[trigger] s.attributes[i]).name == name
                && s.attributes[i].attr_type == ty;
        assert(sorted[i] == m);
        assert(typed.contains(sorted[i]));
    }
    if typed.contains(m) {
        assert(sorted.contains(m));
        let i = choose|i: int| 0 <= i < sorted.len() && sorted[i] == m;
        assert(s.attributes[i].name == name);
    }
}

/// Whether a junction is named after a parent's table and a group of children.
pub open spec fn is_named_for(junction: Seq<char>, table: Seq<char>, group: Seq<char>) -> bool {
    &&& junction == table + "__to__"@ + group
    &&& forall|i: int|
        0 <= i < table.len() ==> !(#[trigger] text::occurs_at(junction, "__to__"@, i))
}

/// Whether a kind of node has a group of children of a kind.
pub open spec fn has_group(s: NodeSchemaModel, group: Seq<char>, kind: Seq<char>) -> bool {
    exists|i: int|
        0 <= i < s.children.len() && (#[trigger] s.children[i]).group_id == group
            && s.children[i].child_node_id == kind
}

proof fn lemma_named_for(junction: Seq<char>, table: Seq<char>, group: Seq<char>)
    requires
        is_named_for(junction, table, group),
    ensures
        schema_query::junction_parts(junction) == Some((table, group)),
{
    let n = table.len() as int;
    let w = "__to__"@;
    assert(junction.subrange(n, n + w.len()) =~= w);
    list_laws::lemma_first_at(junction, w, 0, n);
    assert(junction.take(n) =~= table);
    assert(junction.skip(n + w.len()) =~= group);
}

proof fn lemma_groups(
    junctions: Seq<(Seq<char>, Option<Seq<char>>)>,
    table: Seq<char>,
    count: u64,
    i: int,
    group: Seq<char>,
)
    requires
        0 <= i < junctions.len(),
        is_named_for(junctions[i].0, table, group),
    ensures
        ({
            let r = schema_query::child_groups(junctions, table, count);
            exists|k: int|
                0 <= k < r.len() && (#[trigger] r[k]).group_id == group && r[k].count == count
                    && r[k].child_node_id == match junctions[i].1 {
                    Some(n) => n,
                    None => group,
                }
        }),
    decreases junctions.len(),
{
    let d = junctions.drop_last();
    let before = schema_query::child_groups(d, table, count);
    let r = schema_query::child_groups(junctions, table, count);
    let kind = match junctions[i].1 {
        Some(n) => n,
        None => group,
    };
    if i < d.len() {
        assert(d[i] == junctions[i]);
        lemma_groups(d, table, count, i, group);
        let k = choose|k: int|
            0 <= k < before.len() && (#[trigger] before[k]).group_id == group && before[k].count
                == count && before[k].child_node_id == kind;
        assert(r[k] == before[k]);
    } else {
        lemma_named_for(junctions[i].0, table, group);
        assert(r[r.len() - 1].group_id == group);
    }
}

/// A kind of node has a group of children for each junction that is named after its table.
pub proof fn law_kind_has_groups(
    rows: SchemaRowsModel,
    sections: Seq<SectionModel>,
    t: TableRowModel,
    i: int,
    group: Seq<char>,
)
    requires
        0 <= i < rows.junctions.len(),
        is_named_for(rows.junctions[i].0, t.table_name, group),
    ensures
        has_group(
            schema_query::region_schema(rows, sections, t),
            group,
            match rows.junctions[i].1 {
                Some(n) => n,
                None => group,
            },
        ),
{
    let count = t.row_count as u64;
    lemma_groups(rows.junctions, t.table_name, count, i, group);
    let s = schema_query::region_schema(rows, sections, t);
    let r = schema_query::child_groups(rows.junctions, t.table_name, count);
    assert(s.children == r);
    let kind = match rows.junctions[i].1 {
        Some(n) => n,
        None => group,
    };
    let k = choose|k: int|
        0 <= k < r.len() && (#[trigger] r[k]).group_id == group && r[k].count == count
            && r[k].child_node_id == kind;
    assert(s.children[k].group_id == group);
}

proof fn lemma_kinds(rows: SchemaRowsModel, sections: Seq<SectionModel>, n: int, i: int)
    requires
        0 <= i < n <= rows.tables.len(),
        schema_query::stands_for_kind(rows, rows.tables[i]),
    ensures
        ({
            let s = schema_query::region_schema(rows, sections, rows.tables[i]);
            schema_query::has_kind(
                schema_query::region_schemas(rows, sections, n),
                s.section,
                s.node_id,
            )
        }),
    decreases n,
{
    let before = schema_query::region_schemas(rows, sections, n - 1);
    let r = schema_query::region_schemas(rows, sections, n);
    let s = schema_query::region_schema(rows, sections, rows.tables[i]);
    if i < n - 1 {
        lemma_kinds(rows, sections, n - 1, i);
        let k = choose|k: int|
            0 <= k < before.len() && (#[trigger] before[k]).section == s.section
                && before[k].node_id == s.node_id;
        assert(r[k] == before[k]);
    } else if !schema_query::has_kind(before, s.section, s.node_id) {
        assert(r[r.len() - 1] == s);
    }
}

/// Every table that stands for a kind of node tells of that kind, unless an earlier one of
/// the same section does; every filled stats table tells of the kind of its entries.
pub proof fn law_all_kinds_are_told(rows: SchemaRowsModel, sections: Seq<SectionModel>)
    ensures
        ({
            let all = schema_query::db_schemas(rows, sections);
            &&& forall|i: int|
                0 <= i < rows.tables.len() && schema_query::stands_for_kind(
                    rows,
                    #[trigger] rows.tables[i],
                ) ==> schema_query::has_kind(
                    all,
                    schema_query::section_name(sections, rows.tables[i].region_id),
                    if rows.tables[i].node_id == "root"@ {
                        rows.tables[i].region_id
                    } else {
                        rows.tables[i].node_id
                    },
                )
            &&& forall|i: int, ty: Seq<char>|
                0 <= i < rows.stats.len() && #[trigger] is_stats_table(rows.stats[i].0, ty)
                    ==> schema_query::has_kind(all, "stats:"@ + ty, ty)
        }),
{
    let n = rows.tables.len() as int;
    let first = schema_query::region_schemas(rows, sections, n);
    let all = schema_query::db_schemas(rows, sections);
    assert forall|i: int|
        0 <= i < rows.tables.len() && schema_query::stands_for_kind(
            rows,
            #[trigger] rows.tables[i],
        ) implies schema_query::has_kind(
        all,
        schema_query::section_name(sections, rows.tables[i].region_id),
        if rows.tables[i].node_id == "root"@ {
            rows.tables[i].region_id
        } else {
            rows.tables[i].node_id
        },
    ) by {
        lemma_kinds(rows, sections, n, i);
        let s = schema_query::region_schema(rows, sections, rows.tables[i]);
        let k = choose|k: int|
            0 <= k < first.len() && (#[trigger] first[k]).section == s.section && first[k].node_id
                == s.node_id;
        assert(all[k] == first[k]);
    }
    assert forall|i: int, ty: Seq<char>|
        0 <= i < rows.stats.len() && #[trigger] is_stats_table(
            rows.stats[i].0,
            ty,
        ) implies schema_query::has_kind(all, "stats:"@ + ty, ty) by {
        let t = rows.stats[i].0;
        let w = "stats__"@;
        assert(w =~= t.subrange(0, w.len() as int));
        assert(t.skip(w.len() as int) =~= ty);
        assert(all[first.len() + i].section == "stats:"@ + ty);
    }
}

/// Whether a table is that of the stats entries of a type.
pub open spec fn is_stats_table(name: Seq<char>, ty: Seq<char>) -> bool {
    name == "stats__"@ + ty
}

} // verus!
