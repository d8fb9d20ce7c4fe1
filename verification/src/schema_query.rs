//! What a filled reference database holds: its sections, and the kinds of nodes
//! in them.

use vstd::prelude::*;
use vstd::string::*;
use crate::discovery::glued;
use crate::infer::{AttrSchema, AttrSchemaModel, ChildSchema, ChildSchemaModel, NodeSchema,
    NodeSchemaModel};
use crate::models::{Section, SectionModel};
use crate::order;
use crate::order::{sort_ranked, text_before, Ranked};
use crate::queries;
use crate::queries::{find_entry_type, is_internal_column};
use crate::select;
use crate::select::validate_table_name;
use crate::text;
use crate::text::{chars_of, contains, find_from, list_has, owned, split_once, starts_with,
    text_eq, text_of};

verus! {

// ---------------------------------------------------------------------------
// Sections
// ---------------------------------------------------------------------------

/// A filled table.
#[derive(Debug)]
pub struct TableRow {
    pub table_name: String,
    pub source_type: String,
    pub region_id: String,
    pub node_id: String,
    pub row_count: i64,
    /// The primary key that the database gives.
    pub key: Option<String>,
}

/// What a filled table says.
pub struct TableRowModel {
    pub table_name: Seq<char>,
    pub source_type: Seq<char>,
    pub region_id: Seq<char>,
    pub node_id: Seq<char>,
    pub row_count: i64,
    pub key: Option<Seq<char>>,
}

impl DeepView for TableRow {
    type V = TableRowModel;

    open spec fn deep_view(&self) -> TableRowModel {
        TableRowModel {
            table_name: self.table_name@,
            source_type: self.source_type@,
            region_id: self.region_id@,
            node_id: self.node_id@,
            row_count: self.row_count,
            key: self.key.deep_view(),
        }
    }
}

/// A table of children, with the table that links it.
#[derive(Debug)]
pub struct ChildTableInfo {
    pub junction_table: String,
    pub child_table: String,
    pub child_node_id: String,
    pub child_row_count: i32,
}

/// What a table of children says.
pub struct ChildTableModel {
    pub junction_table: Seq<char>,
    pub child_table: Seq<char>,
    pub child_node_id: Seq<char>,
    pub child_row_count: i32,
}

impl DeepView for ChildTableInfo {
    type V = ChildTableModel;

    open spec fn deep_view(&self) -> ChildTableModel {
        ChildTableModel {
            junction_table: self.junction_table@,
            child_table: self.child_table@,
            child_node_id: self.child_node_id@,
            child_row_count: self.child_row_count,
        }
    }
}

/// A section of the database: a table that no other holds the children of.
#[derive(Debug)]
pub struct SectionInfo {
    pub region_id: String,
    pub table_name: String,
    pub node_id: String,
    pub source_type: String,
    pub row_count: i32,
    pub pk_column: String,
    pub children: Vec<ChildTableInfo>,
}

/// What a section of the database says.
pub struct SectionInfoModel {
    pub region_id: Seq<char>,
    pub table_name: Seq<char>,
    pub node_id: Seq<char>,
    pub source_type: Seq<char>,
    pub row_count: i32,
    pub pk_column: Seq<char>,
    pub children: Seq<ChildTableModel>,
}

impl DeepView for SectionInfo {
    type V = SectionInfoModel;

    open spec fn deep_view(&self) -> SectionInfoModel {
        SectionInfoModel {
            region_id: self.region_id@,
            table_name: self.table_name@,
            node_id: self.node_id@,
            source_type: self.source_type@,
            row_count: self.row_count,
            pk_column: self.pk_column@,
            children: self.children.deep_view(),
        }
    }
}

/// The primary key of a table, given what the database says of it.
pub open spec fn key_column(table: Seq<char>, key: Option<Seq<char>>) -> Seq<char> {
    match key {
        Some(k) if select::valid_table_name(table) => k,
        _ => "rowid"@,
    }
}

/// The primary key of a table, given what the database says of it.
pub fn detect_pk_column(table_name: &str, key: &Option<String>) -> (r: String)
    ensures
        r@ == key_column(table_name@, key.deep_view()),
{
    match validate_table_name(table_name) {
        Ok(_) => match key {
            Some(k) => k.clone(),
            None => owned("rowid"),
        },
        Err(_) => owned("rowid"),
    }
}

/// What the last of the first `n` tables of a name says of its node and its
/// rows.
pub open spec fn table_facts(rows: Seq<TableRowModel>, table: Seq<char>, n: int) -> (
    Seq<char>,
    i64,
)
    decreases n,
{
    if n <= 0 {
        (Seq::empty(), 0)
    } else if rows[n - 1].table_name == table {
        (rows[n - 1].node_id, rows[n - 1].row_count)
    } else {
        table_facts(rows, table, n - 1)
    }
}

#[verifier::loop_isolation(false)]
fn find_facts(rows: &Vec<TableRow>, table: &str) -> (r: (String, i64))
    ensures
        (r.0@, r.1) == table_facts(rows.deep_view(), table@, rows@.len() as int),
{
    let ghost all = rows.deep_view();
    let mut i: usize = rows.len();
    while i > 0
        invariant
            i <= rows@.len(),
            all == rows.deep_view(),
            table_facts(all, table@, i as int) == table_facts(all, table@, rows@.len() as int),
        decreases i,
    {
        i -= 1;
        assert(all[i as int] == rows@[i as int].deep_view());
        if text_eq(rows[i].table_name.as_str(), table) {
            return (rows[i].node_id.clone(), rows[i].row_count);
        }
    }
    let none = String::new();
    assert(none@ =~= Seq::<char>::empty());
    (none, 0)
}

/// The children that junctions link to a table. A junction comes with its name
/// and the two tables that it links, with a comma between.
pub open spec fn children_of(
    rows: Seq<TableRowModel>,
    junctions: Seq<(Seq<char>, Seq<char>)>,
    parent: Seq<char>,
) -> Seq<ChildTableModel>
    decreases junctions.len(),
{
    if junctions.len() == 0 {
        Seq::empty()
    } else {
        let before = children_of(rows, junctions.drop_last(), parent);
        let j = junctions.last();
        match text::halves(j.1, ',') {
            Some(h) => if h.0 == parent {
                let facts = table_facts(rows, h.1, rows.len() as int);
                before.push(
                    ChildTableModel {
                        junction_table: j.0,
                        child_table: h.1,
                        child_node_id: facts.0,
                        child_row_count: facts.1 as i32,
                    },
                )
            } else {
                before
            },
            None => before,
        }
    }
}

/// Whether a junction links a table to another as its children.
pub open spec fn is_child(junctions: Seq<(Seq<char>, Seq<char>)>, table: Seq<char>) -> bool {
    exists|i: int|
        0 <= i < junctions.len() && (text::halves((#[trigger] junctions[i]).1, ',') matches Some(h)
            && h.1 == table)
}

/// Whether a table of the name stands before place `n`.
pub open spec fn stands_before(rows: Seq<TableRowModel>, table: Seq<char>, n: int) -> bool {
    exists|i: int| 0 <= i < n && (#[trigger] rows[i]).table_name == table
}

/// The section of the table at place `i`.
pub open spec fn section_of(
    rows: Seq<TableRowModel>,
    junctions: Seq<(Seq<char>, Seq<char>)>,
    i: int,
) -> SectionInfoModel {
    let row = rows[i];
    SectionInfoModel {
        region_id: row.region_id,
        table_name: row.table_name,
        node_id: row.node_id,
        source_type: row.source_type,
        row_count: row.row_count as i32,
        pk_column: key_column(row.table_name, row.key),
        children: if stands_before(rows, row.table_name, i) {
            Seq::empty()
        } else {
            children_of(rows, junctions, row.table_name)
        },
    }
}

/// The sections of the first `n` tables.
pub open spec fn sections_of(
    rows: Seq<TableRowModel>,
    junctions: Seq<(Seq<char>, Seq<char>)>,
    n: int,
) -> Seq<SectionInfoModel>
    decreases n,
{
    if n <= 0 {
        Seq::empty()
    } else {
        let before = sections_of(rows, junctions, n - 1);
        if is_child(junctions, rows[n - 1].table_name) {
            before
        } else {
            before.push(section_of(rows, junctions, n - 1))
        }
    }
}

#[verifier::loop_isolation(false)]
fn find_children(rows: &Vec<TableRow>, junctions: &Vec<(String, String)>, parent: &str) -> (r: Vec<
    ChildTableInfo,
>)
    ensures
        r.deep_view() == children_of(rows.deep_view(), junctions.deep_view(), parent@),
{
    let ghost rm = rows.deep_view();
    let ghost all = junctions.deep_view();
    let mut r: Vec<ChildTableInfo> = Vec::new();
    assert(r.deep_view() =~= children_of(rm, all.take(0), parent@));
    let mut i: usize = 0;
    while i < junctions.len()
        invariant
            i <= junctions@.len(),
            all == junctions.deep_view(),
            r.deep_view() == children_of(rm, all.take(i as int), parent@),
        decreases junctions@.len() - i,
    {
        assert(all.take(i + 1).drop_last() =~= all.take(i as int));
        assert(all[i as int] == (junctions@[i as int].0@, junctions@[i as int].1@));
        assert(rm.len() == rows@.len());
        let ghost before = r.deep_view();
        match split_once(junctions[i].1.as_str(), ',') {
            Some(h) => {
                if text_eq(h.0.as_str(), parent) {
                    let facts = find_facts(rows, h.1.as_str());
                    let one = ChildTableInfo {
                        junction_table: junctions[i].0.clone(),
                        child_table: h.1,
                        child_node_id: facts.0,
                        child_row_count: #[verifier::truncate] (facts.1 as i32),
                    };
                    r.push(one);
                    assert(r.deep_view() =~= before.push(one.deep_view()));
                }
            },
            None => {},
        }
        i += 1;
    }
    assert(all.take(i as int) =~= all);
    r
}

#[verifier::loop_isolation(false)]
fn has_parent(junctions: &Vec<(String, String)>, table: &str) -> (r: bool)
    ensures
        r == is_child(junctions.deep_view(), table@),
{
    let ghost all = junctions.deep_view();
    let mut i: usize = 0;
    while i < junctions.len()
        invariant
            i <= junctions@.len(),
            all == junctions.deep_view(),
            forall|j: int|
                0 <= j < i ==> !(text::halves((#[trigger] all[j]).1, ',') matches Some(h) && h.1
                    == table@),
        decreases junctions@.len() - i,
    {
        assert(all[i as int] == (junctions@[i as int].0@, junctions@[i as int].1@));
        match split_once(junctions[i].1.as_str(), ',') {
            Some(h) => {
                if text_eq(h.1.as_str(), table) {
                    return true;
                }
            },
            None => {},
        }
        i += 1;
    }
    false
}

#[verifier::loop_isolation(false)]
fn came_before(rows: &Vec<TableRow>, table: &str, n: usize) -> (r: bool)
    requires
        n <= rows@.len(),
    ensures
        r == stands_before(rows.deep_view(), table@, n as int),
{
    let ghost all = rows.deep_view();
    let mut i: usize = 0;
    while i < n
        invariant
            i <= n,
            n <= rows@.len(),
            all == rows.deep_view(),
            forall|j: int| 0 <= j < i ==> (#[trigger] all[j]).table_name != table@,
        decreases n - i,
    {
        assert(all[i as int] == rows@[i as int].deep_view());
        if text_eq(rows[i].table_name.as_str(), table) {
            return true;
        }
        i += 1;
    }
    false
}

/// The sections of the database with the tables of their children, given the
/// filled tables and junctions. It fails where the database could not be asked.
#[verifier::loop_isolation(false)]
pub fn query_available_sections(
    found: Result<(Vec<TableRow>, Vec<(String, String)>), String>,
) -> (r: Result<Vec<SectionInfo>, String>)
    ensures
        match found {
            Ok(f) => r matches Ok(list) && list.deep_view() == sections_of(
                f.0.deep_view(),
                f.1.deep_view(),
                f.0@.len() as int,
            ),
            Err(e) => r matches Err(g) && g@ == e@,
        },
{
    let (rows, junctions) = match found {
        Ok(f) => f,
        Err(e) => {
            return Err(e);
        },
    };
    let ghost all = rows.deep_view();
    let ghost jm = junctions.deep_view();
    let mut r: Vec<SectionInfo> = Vec::new();
    assert(r.deep_view() =~= sections_of(all, jm, 0));
    let mut i: usize = 0;
    while i < rows.len()
        invariant
            i <= rows@.len(),
            all == rows.deep_view(),
            jm == junctions.deep_view(),
            r.deep_view() == sections_of(all, jm, i as int),
        decreases rows@.len() - i,
    {
        let row = &rows[i];
        assert(all[i as int] == row.deep_view());
        let ghost before = r.deep_view();
        if !has_parent(&junctions, row.table_name.as_str()) {
            let children: Vec<ChildTableInfo> = if came_before(
                &rows,
                row.table_name.as_str(),
                i,
            ) {
                let none: Vec<ChildTableInfo> = Vec::new();
                assert(none.deep_view() =~= Seq::<ChildTableModel>::empty());
                none
            } else {
                find_children(&rows, &junctions, row.table_name.as_str())
            };
            let one = SectionInfo {
                region_id: row.region_id.clone(),
                table_name: row.table_name.clone(),
                node_id: row.node_id.clone(),
                source_type: row.source_type.clone(),
                row_count: #[verifier::truncate] (row.row_count as i32),
                pk_column: detect_pk_column(row.table_name.as_str(), &row.key),
                children,
            };
            r.push(one);
            assert(r.deep_view() =~= before.push(one.deep_view()));
        }
        i += 1;
    }
    Ok(r)
}

/// Every table that is no one's child is a section, in the order of the tables;
/// no table of children is a section.
pub proof fn law_sections_are_roots(
    rows: Seq<TableRowModel>,
    junctions: Seq<(Seq<char>, Seq<char>)>,
    n: int,
)
    requires
        0 <= n <= rows.len(),
    ensures
        ({
            let s = sections_of(rows, junctions, n);
            &&& forall|i: int|
                0 <= i < s.len() ==> !is_child(junctions, (#[trigger] s[i]).table_name)
            &&& forall|j: int|
                0 <= j < n && !is_child(junctions, (#[trigger] rows[j]).table_name)
                    ==> s.contains(section_of(rows, junctions, j))
        }),
    decreases n,
{
    if n > 0 {
        law_sections_are_roots(rows, junctions, n - 1);
        let b = sections_of(rows, junctions, n - 1);
        let s = sections_of(rows, junctions, n);
        assert forall|j: int|
            0 <= j < n && !is_child(
                junctions,
                (#[trigger] rows[j]).table_name,
            ) implies s.contains(section_of(rows, junctions, j)) by {
            if j < n - 1 {
                let k = choose|k: int| 0 <= k < b.len() && b[k] == section_of(rows, junctions, j);
                assert(s[k] == b[k]);
            } else {
                assert(s[s.len() - 1] == section_of(rows, junctions, j));
            }
        }
    }
}

// ---------------------------------------------------------------------------
// Kinds of nodes
// ---------------------------------------------------------------------------

/// A column of a table and the type of its values.
#[derive(Debug)]
pub struct TypedColumn {
    pub name: String,
    pub attr_type: String,
}

/// What a typed column says.
pub struct TypedModel {
    pub name: Seq<char>,
    pub attr_type: Seq<char>,
}

impl DeepView for TypedColumn {
    type V = TypedModel;

    open spec fn deep_view(&self) -> TypedModel {
        TypedModel { name: self.name@, attr_type: self.attr_type@ }
    }
}

/// Whether a column identifies an entry.
pub open spec fn identifies(name: Seq<char>) -> bool {
    name == "UUID"@ || name == "MapKey"@
}

pub fn is_identifier(name: &str) -> (r: bool)
    ensures
        r == identifies(name@),
{
    text_eq(name, "UUID") || text_eq(name, "MapKey")
}

/// Columns by name, those that identify an entry first.
impl Ranked for TypedColumn {
    open spec fn ranks_before(a: TypedModel, b: TypedModel) -> bool {
        if identifies(a.name) != identifies(b.name) {
            identifies(a.name)
        } else {
            order::text_lt(a.name, b.name)
        }
    }

    fn goes_before(&self, other: &Self) -> (r: bool) {
        let first = is_identifier(self.name.as_str());
        if first != is_identifier(other.name.as_str()) {
            first
        } else {
            text_before(self.name.as_str(), other.name.as_str())
        }
    }
}

/// The typed columns of a table that hold values of entries.
pub open spec fn typed_columns(
    columns: Seq<(Seq<char>, Seq<char>, Option<Seq<char>>)>,
    table: Seq<char>,
) -> Seq<TypedModel>
    decreases columns.len(),
{
    if columns.len() == 0 {
        Seq::empty()
    } else {
        let before = typed_columns(columns.drop_last(), table);
        let c = columns.last();
        if c.0 == table && !"_"@.is_prefix_of(c.1) {
            before.push(
                TypedModel {
                    name: c.1,
                    attr_type: match c.2 {
                        Some(t) => t,
                        None => "FixedString"@,
                    },
                },
            )
        } else {
            before
        }
    }
}

#[verifier::loop_isolation(false)]
fn find_typed(columns: &Vec<(String, String, Option<String>)>, table: &str) -> (r: Vec<TypedColumn>)
    ensures
        r.deep_view() == typed_columns(columns.deep_view(), table@),
{
    let ghost all = columns.deep_view();
    let mut r: Vec<TypedColumn> = Vec::new();
    assert(r.deep_view() =~= typed_columns(all.take(0), table@));
    let mut i: usize = 0;
    while i < columns.len()
        invariant
            i <= columns@.len(),
            all == columns.deep_view(),
            r.deep_view() == typed_columns(all.take(i as int), table@),
        decreases columns@.len() - i,
    {
        assert(all.take(i + 1).drop_last() =~= all.take(i as int));
        let c = &columns[i];
        assert(all[i as int] == (c.0@, c.1@, c.2.deep_view()));
        let ghost before = r.deep_view();
        if text_eq(c.0.as_str(), table) && !starts_with(c.1.as_str(), "_") {
            let attr_type = match &c.2 {
                Some(t) => t.clone(),
                None => owned("FixedString"),
            };
            let one = TypedColumn { name: c.1.clone(), attr_type };
            r.push(one);
            assert(r.deep_view() =~= before.push(one.deep_view()));
        }
        i += 1;
    }
    assert(all.take(i as int) =~= all);
    r
}

/// The typed columns of a stats table that are fields of entries.
pub open spec fn typed_fields(
    columns: Seq<(Seq<char>, Seq<char>, Seq<char>)>,
    table: Seq<char>,
) -> Seq<TypedModel>
    decreases columns.len(),
{
    if columns.len() == 0 {
        Seq::empty()
    } else {
        let before = typed_fields(columns.drop_last(), table);
        let c = columns.last();
        if c.0 == table && !queries::internal_column(c.1) {
            before.push(TypedModel { name: c.1, attr_type: c.2 })
        } else {
            before
        }
    }
}

#[verifier::loop_isolation(false)]
fn find_fields(columns: &Vec<(String, String, String)>, table: &str) -> (r: Vec<TypedColumn>)
    ensures
        r.deep_view() == typed_fields(columns.deep_view(), table@),
{
    let ghost all = columns.deep_view();
    let mut r: Vec<TypedColumn> = Vec::new();
    assert(r.deep_view() =~= typed_fields(all.take(0), table@));
    let mut i: usize = 0;
    while i < columns.len()
        invariant
            i <= columns@.len(),
            all == columns.deep_view(),
            r.deep_view() == typed_fields(all.take(i as int), table@),
        decreases columns@.len() - i,
    {
        assert(all.take(i + 1).drop_last() =~= all.take(i as int));
        let c = &columns[i];
        assert(all[i as int] == (c.0@, c.1@, c.2@));
        let ghost before = r.deep_view();
        if text_eq(c.0.as_str(), table) && !is_internal_column(c.1.as_str()) {
            let one = TypedColumn { name: c.1.clone(), attr_type: c.2.clone() };
            r.push(one);
            assert(r.deep_view() =~= before.push(one.deep_view()));
        }
        i += 1;
    }
    assert(all.take(i as int) =~= all);
    r
}

/// Attributes that every entry has.
pub open spec fn full_attrs(columns: Seq<TypedModel>, count: u64) -> Seq<AttrSchemaModel> {
    Seq::new(
        columns.len(),
        |i: int|
            AttrSchemaModel {
                name: columns[i].name,
                attr_type: columns[i].attr_type,
                count,
                examples: Seq::empty(),
            },
    )
}

#[verifier::loop_isolation(false)]
fn make_attrs(columns: &Vec<TypedColumn>, count: u64) -> (r: Vec<AttrSchema>)
    ensures
        r.deep_view() == full_attrs(columns.deep_view(), count),
{
    let ghost all = columns.deep_view();
    let ghost want = full_attrs(all, count);
    let mut r: Vec<AttrSchema> = Vec::new();
    assert(r.deep_view() =~= want.take(0));
    let mut i: usize = 0;
    while i < columns.len()
        invariant
            i <= columns@.len(),
            all == columns.deep_view(),
            r.deep_view() == want.take(i as int),
        decreases columns@.len() - i,
    {
        assert(all[i as int] == columns@[i as int].deep_view());
        let examples: Vec<String> = Vec::new();
        assert(examples.deep_view() =~= Seq::<Seq<char>>::empty());
        let one = AttrSchema {
            name: columns[i].name.clone(),
            attr_type: columns[i].attr_type.clone(),
            count,
            examples,
        };
        let ghost before = r.deep_view();
        r.push(one);
        assert(r.deep_view() =~= before.push(one.deep_view()));
        assert(want.take(i + 1) =~= want.take(i as int).push(want[i as int]));
        i += 1;
    }
    assert(want.take(i as int) =~= want);
    r
}

/// The parent's table and the group of children in the name of a junction.
pub open spec fn junction_parts(name: Seq<char>) -> Option<(Seq<char>, Seq<char>)> {
    match text::first_at(name, "__to__"@, 0) {
        Some(i) => Some((name.take(i), name.skip(i + "__to__"@.len()))),
        None => None,
    }
}

/// The parent's table and the group of children in the name of a junction.
pub fn split_junction(name: &str) -> (r: Option<(String, String)>)
    ensures
        r.deep_view() == junction_parts(name@),
{
    let v = chars_of(name);
    let p = chars_of("__to__");
    let n: usize = v.len();
    proof {
        text::lemma_first_at(name@, "__to__"@, 0);
    }
    match find_from(&v, &p, 0) {
        Some(i) => {
            assert(text::occurs_at(name@, "__to__"@, i as int));
            assert(name@.subrange(0, i as int) =~= name@.take(i as int));
            assert(name@.subrange(i + p@.len(), n as int) =~= name@.skip(i + p@.len()));
            Some((text_of(&v, 0, i), text_of(&v, i + p.len(), n)))
        },
        None => None,
    }
}

/// A filled junction: its name and the kind of node that its children are.
pub open spec fn child_kind(junction: (Seq<char>, Option<Seq<char>>), group: Seq<char>) -> Seq<char> {
    match junction.1 {
        Some(n) => n,
        None => group,
    }
}

/// The groups of children that junctions link to a table.
pub open spec fn child_groups(
    junctions: Seq<(Seq<char>, Option<Seq<char>>)>,
    table: Seq<char>,
    count: u64,
) -> Seq<ChildSchemaModel>
    decreases junctions.len(),
{
    if junctions.len() == 0 {
        Seq::empty()
    } else {
        let before = child_groups(junctions.drop_last(), table, count);
        match junction_parts(junctions.last().0) {
            Some(p) => if p.0 == table {
                before.push(
                    ChildSchemaModel {
                        group_id: p.1,
                        child_node_id: child_kind(junctions.last(), p.1),
                        count,
                    },
                )
            } else {
                before
            },
            None => before,
        }
    }
}

fn pick_kind(node_id: &Option<String>, group: &str) -> (r: String)
    ensures
        r@ == (match node_id.deep_view() {
            Some(n) => n,
            None => group@,
        }),
{
    match node_id {
        Some(n) => n.clone(),
        None => owned(group),
    }
}

#[verifier::loop_isolation(false)]
fn find_groups(junctions: &Vec<(String, Option<String>)>, table: &str, count: u64) -> (r: Vec<
    ChildSchema,
>)
    ensures
        r.deep_view() == child_groups(junctions.deep_view(), table@, count),
{
    let ghost all = junctions.deep_view();
    let mut r: Vec<ChildSchema> = Vec::new();
    assert(r.deep_view() =~= child_groups(all.take(0), table@, count));
    let mut i: usize = 0;
    while i < junctions.len()
        invariant
            i <= junctions@.len(),
            all == junctions.deep_view(),
            r.deep_view() == child_groups(all.take(i as int), table@, count),
        decreases junctions@.len() - i,
    {
        assert(all.take(i + 1).drop_last() =~= all.take(i as int));
        let j = &junctions[i];
        assert(all[i as int] == (j.0@, j.1.deep_view()));
        let ghost before = r.deep_view();
        match split_junction(j.0.as_str()) {
            Some(p) => {
                if text_eq(p.0.as_str(), table) {
                    let child_node_id = pick_kind(&j.1, p.1.as_str());
                    let one = ChildSchema { group_id: p.1, child_node_id, count };
                    r.push(one);
                    assert(r.deep_view() =~= before.push(one.deep_view()));
                }
            },
            None => {},
        }
        i += 1;
    }
    assert(all.take(i as int) =~= all);
    r
}

/// Whether a junction has children of a kind.
pub open spec fn nests(junctions: Seq<(Seq<char>, Option<Seq<char>>)>, node_id: Seq<char>) -> bool {
    exists|i: int|
        0 <= i < junctions.len() && (junction_parts((#[trigger] junctions[i]).0) matches Some(p)
            && child_kind(junctions[i], p.1) == node_id)
}

#[verifier::loop_isolation(false)]
fn has_nested(junctions: &Vec<(String, Option<String>)>, node_id: &str) -> (r: bool)
    ensures
        r == nests(junctions.deep_view(), node_id@),
{
    let ghost all = junctions.deep_view();
    let mut i: usize = 0;
    while i < junctions.len()
        invariant
            i <= junctions@.len(),
            all == junctions.deep_view(),
            forall|k: int|
                0 <= k < i ==> !(junction_parts((#[trigger] all[k]).0) matches Some(p)
                    && child_kind(all[k], p.1) == node_id@),
        decreases junctions@.len() - i,
    {
        let j = &junctions[i];
        assert(all[i as int] == (j.0@, j.1.deep_view()));
        match split_junction(j.0.as_str()) {
            Some(p) => {
                let kind = pick_kind(&j.1, p.1.as_str());
                if text_eq(kind.as_str(), node_id) {
                    return true;
                }
            },
            None => {},
        }
        i += 1;
    }
    false
}

/// Whether a table holds nodes of a kind that some junction has children of.
pub open spec fn is_nested(
    tables: Seq<TableRowModel>,
    junctions: Seq<(Seq<char>, Option<Seq<char>>)>,
    table: Seq<char>,
) -> bool {
    exists|i: int|
        0 <= i < tables.len() && (#[trigger] tables[i]).table_name == table && nests(
            junctions,
            tables[i].node_id,
        )
}

#[verifier::loop_isolation(false)]
fn table_is_nested(
    tables: &Vec<TableRow>,
    junctions: &Vec<(String, Option<String>)>,
    table: &str,
) -> (r: bool)
    ensures
        r == is_nested(tables.deep_view(), junctions.deep_view(), table@),
{
    let ghost all = tables.deep_view();
    let mut i: usize = 0;
    while i < tables.len()
        invariant
            i <= tables@.len(),
            all == tables.deep_view(),
            forall|k: int|
                0 <= k < i ==> !((#[trigger] all[k]).table_name == table@ && nests(
                    junctions.deep_view(),
                    all[k].node_id,
                )),
        decreases tables@.len() - i,
    {
        let t = &tables[i];
        assert(all[i as int] == t.deep_view());
        if text_eq(t.table_name.as_str(), table) && has_nested(junctions, t.node_id.as_str()) {
            return true;
        }
        i += 1;
    }
    false
}

/// The section that a region feeds: the last that lists the region, and else
/// one that is named after the region.
pub open spec fn section_name(sections: Seq<SectionModel>, region: Seq<char>) -> Seq<char>
    decreases sections.len(),
{
    if sections.len() == 0 {
        region
    } else if text::listed(sections.last().region_ids, region) {
        sections.last().name
    } else {
        section_name(sections.drop_last(), region)
    }
}

/// The section that a region feeds.
#[verifier::loop_isolation(false)]
pub fn region_to_section_name(sections: &Vec<Section>, region: &str) -> (r: String)
    ensures
        r@ == section_name(sections.deep_view(), region@),
{
    let ghost all = sections.deep_view();
    let mut i: usize = sections.len();
    assert(all.take(i as int) =~= all);
    while i > 0
        invariant
            i <= sections@.len(),
            all == sections.deep_view(),
            section_name(all.take(i as int), region@) == section_name(all, region@),
        decreases i,
    {
        assert(all.take(i as int).drop_last() =~= all.take(i - 1));
        i -= 1;
        assert(all[i as int] == sections@[i as int].deep_view());
        if list_has(&sections[i].region_ids, region) {
            return sections[i].name.clone();
        }
    }
    owned(region)
}

/// What is asked of the database for the kinds of nodes in it.
pub struct SchemaRows {
    /// The filled tables of regions.
    pub tables: Vec<TableRow>,
    /// The filled junctions, each with the kind of its children.
    pub junctions: Vec<(String, Option<String>)>,
    /// Table, name and type of each column of the tables of regions.
    pub columns: Vec<(String, String, Option<String>)>,
    /// The filled stats tables, each with the number of its rows.
    pub stats: Vec<(String, i64)>,
    /// Table, name and type of each column of the stats tables.
    pub stats_columns: Vec<(String, String, String)>,
}

/// What the rows for the kinds of nodes say.
pub struct SchemaRowsModel {
    pub tables: Seq<TableRowModel>,
    pub junctions: Seq<(Seq<char>, Option<Seq<char>>)>,
    pub columns: Seq<(Seq<char>, Seq<char>, Option<Seq<char>>)>,
    pub stats: Seq<(Seq<char>, i64)>,
    pub stats_columns: Seq<(Seq<char>, Seq<char>, Seq<char>)>,
}

impl DeepView for SchemaRows {
    type V = SchemaRowsModel;

    open spec fn deep_view(&self) -> SchemaRowsModel {
        SchemaRowsModel {
            tables: self.tables.deep_view(),
            junctions: self.junctions.deep_view(),
            columns: self.columns.deep_view(),
            stats: self.stats.deep_view(),
            stats_columns: self.stats_columns.deep_view(),
        }
    }
}

/// Whether a table of a region stands for a kind of node: it says which, and its
/// rows are no children.
pub open spec fn stands_for_kind(rows: SchemaRowsModel, t: TableRowModel) -> bool {
    &&& t.region_id.len() > 0
    &&& t.node_id.len() > 0
    &&& !is_nested(rows.tables, rows.junctions, t.table_name)
    &&& !text::has_text(t.table_name, "__to__"@)
}

/// The kind of node that a table of a region stands for.
pub open spec fn region_schema(
    rows: SchemaRowsModel,
    sections: Seq<SectionModel>,
    t: TableRowModel,
) -> NodeSchemaModel {
    let count = t.row_count as u64;
    NodeSchemaModel {
        node_id: if t.node_id == "root"@ {
            t.region_id
        } else {
            t.node_id
        },
        section: section_name(sections, t.region_id),
        sample_count: (t.row_count as usize) as nat,
        attributes: full_attrs(
            order::stable_sort(
                typed_columns(rows.columns, t.table_name),
                order::rank::<TypedColumn>(),
            ),
            count,
        ),
        children: child_groups(rows.junctions, t.table_name, count),
    }
}

/// Whether a kind of node is among kinds.
pub open spec fn has_kind(known: Seq<NodeSchemaModel>, section: Seq<char>, node_id: Seq<char>) -> bool {
    exists|i: int|
        0 <= i < known.len() && (#[trigger] known[i]).section == section && known[i].node_id
            == node_id
}

/// The kinds of nodes that the first `n` tables of regions stand for, each once.
pub open spec fn region_schemas(rows: SchemaRowsModel, sections: Seq<SectionModel>, n: int) -> Seq<
    NodeSchemaModel,
>
    decreases n,
{
    if n <= 0 {
        Seq::empty()
    } else {
        let before = region_schemas(rows, sections, n - 1);
        let t = rows.tables[n - 1];
        let s = region_schema(rows, sections, t);
        if stands_for_kind(rows, t) && !has_kind(before, s.section, s.node_id) {
            before.push(s)
        } else {
            before
        }
    }
}

/// The kind of entries of a stats table.
pub open spec fn stats_schema(rows: SchemaRowsModel, t: (Seq<char>, i64)) -> NodeSchemaModel {
    NodeSchemaModel {
        node_id: queries::entry_type_of(t.0),
        section: "stats:"@ + queries::entry_type_of(t.0),
        sample_count: (t.1 as usize) as nat,
        attributes: full_attrs(typed_fields(rows.stats_columns, t.0), t.1 as u64),
        children: Seq::empty(),
    }
}

/// The kinds of nodes in a database: those of regions, and then those of stats.
pub open spec fn db_schemas(rows: SchemaRowsModel, sections: Seq<SectionModel>) -> Seq<
    NodeSchemaModel,
> {
    region_schemas(rows, sections, rows.tables.len() as int) + Seq::new(
        rows.stats.len(),
        |i: int| stats_schema(rows, rows.stats[i]),
    )
}

#[verifier::loop_isolation(false)]
fn knows_kind(known: &Vec<NodeSchema>, section: &str, node_id: &str) -> (r: bool)
    ensures
        r == has_kind(known.deep_view(), section@, node_id@),
{
    let ghost all = known.deep_view();
    let mut i: usize = 0;
    while i < known.len()
        invariant
            i <= known@.len(),
            all == known.deep_view(),
            forall|k: int|
                0 <= k < i ==> !((#[trigger] all[k]).section == section@ && all[k].node_id
                    == node_id@),
        decreases known@.len() - i,
    {
        assert(all[i as int] == known@[i as int].deep_view());
        if text_eq(known[i].section.as_str(), section) && text_eq(
            known[i].node_id.as_str(),
            node_id,
        ) {
            return true;
        }
        i += 1;
    }
    false
}

fn make_region_schema(rows: &SchemaRows, sections: &Vec<Section>, t: &TableRow) -> (r: NodeSchema)
    ensures
        r.deep_view() == region_schema(rows.deep_view(), sections.deep_view(), t.deep_view()),
{
    let count: u64 = #[verifier::truncate] (t.row_count as u64);
    let typed = sort_ranked(find_typed(&rows.columns, t.table_name.as_str()));
    let node_id = if text_eq(t.node_id.as_str(), "root") {
        t.region_id.clone()
    } else {
        t.node_id.clone()
    };
    NodeSchema {
        node_id,
        section: region_to_section_name(sections, t.region_id.as_str()),
        sample_count: #[verifier::truncate] (t.row_count as usize),
        attributes: make_attrs(&typed, count),
        children: find_groups(&rows.junctions, t.table_name.as_str(), count),
    }
}

fn make_stats_schema(rows: &SchemaRows, table: &str, row_count: i64) -> (r: NodeSchema)
    ensures
        r.deep_view() == stats_schema(rows.deep_view(), (table@, row_count)),
{
    let entry_type = find_entry_type(table);
    let fields = find_fields(&rows.stats_columns, table);
    let children: Vec<ChildSchema> = Vec::new();
    assert(children.deep_view() =~= Seq::<ChildSchemaModel>::empty());
    NodeSchema {
        section: glued("stats:", entry_type.as_str()),
        node_id: entry_type,
        sample_count: #[verifier::truncate] (row_count as usize),
        attributes: make_attrs(&fields, #[verifier::truncate] (row_count as u64)),
        children,
    }
}

/// The kinds of nodes in a database, given the sections that there are. It fails
/// where the database could not be asked.
#[verifier::loop_isolation(false)]
pub fn query_db_schemas(found: Result<SchemaRows, String>, sections: &Vec<Section>) -> (r: Result<
    Vec<NodeSchema>,
    String,
>)
    ensures
        match found {
            Ok(rows) => r matches Ok(list) && list.deep_view() == db_schemas(
                rows.deep_view(),
                sections.deep_view(),
            ),
            Err(e) => r matches Err(f) && f@ == e@,
        },
{
    let rows = match found {
        Ok(rows) => rows,
        Err(e) => {
            return Err(e);
        },
    };
    let ghost rm = rows.deep_view();
    let ghost sm = sections.deep_view();
    let mut r: Vec<NodeSchema> = Vec::new();
    assert(r.deep_view() =~= region_schemas(rm, sm, 0));
    assert(rm.tables.len() == rows.tables@.len());
    assert(rm.stats.len() == rows.stats@.len());
    let mut i: usize = 0;
    while i < rows.tables.len()
        invariant
            i <= rows.tables@.len(),
            rm == rows.deep_view(),
            r.deep_view() == region_schemas(rm, sm, i as int),
        decreases rows.tables@.len() - i,
    {
        let t = &rows.tables[i];
        assert(rm.tables[i as int] == t.deep_view());
        let ghost before = r.deep_view();
        if !t.region_id.as_str().is_empty() && !t.node_id.as_str().is_empty() && !table_is_nested(
            &rows.tables,
            &rows.junctions,
            t.table_name.as_str(),
        ) && !contains(t.table_name.as_str(), "__to__") {
            let one = make_region_schema(&rows, sections, t);
            if !knows_kind(&r, one.section.as_str(), one.node_id.as_str()) {
                r.push(one);
                assert(r.deep_view() =~= before.push(one.deep_view()));
            }
        }
        i += 1;
    }
    let ghost start = r.deep_view();
    let ghost want = Seq::new(rm.stats.len(), |i: int| stats_schema(rm, rm.stats[i]));
    assert(start + want.take(0) =~= start);
    let mut k: usize = 0;
    while k < rows.stats.len()
        invariant
            k <= rows.stats@.len(),
            rm == rows.deep_view(),
            r.deep_view() == start + want.take(k as int),
        decreases rows.stats@.len() - k,
    {
        let t = &rows.stats[k];
        assert(rm.stats[k as int] == (t.0@, t.1));
        let one = make_stats_schema(&rows, t.0.as_str(), t.1);
        let ghost before = r.deep_view();
        r.push(one);
        assert(r.deep_view() =~= before.push(one.deep_view()));
        assert(want.take(k + 1) =~= want.take(k as int).push(want[k as int]));
        assert(r.deep_view() =~= start + want.take(k + 1));
        k += 1;
    }
    assert(want.take(k as int) =~= want);
    Ok(r)
}

/// Among the kinds of nodes of regions no two have the same section and node.
pub proof fn law_kinds_once(rows: SchemaRowsModel, sections: Seq<SectionModel>, n: int)
    ensures
        ({
            let s = region_schemas(rows, sections, n);
            forall|i: int, j: int|
                0 <= i < j < s.len() ==> !((#[trigger] s[i]).section == (#[trigger] s[j]).section
                    && s[i].node_id == s[j].node_id)
        }),
    decreases n,
{
    if n > 0 {
        law_kinds_once(rows, sections, n - 1);
        let before = region_schemas(rows, sections, n - 1);
        let s = region_schemas(rows, sections, n);
        assert forall|i: int, j: int| 0 <= i < j < s.len() implies !((#[trigger] s[i]).section == (
        #[trigger] s[j]).section && s[i].node_id == s[j].node_id) by {
            assert(s[i] == before[i]);
            if j < before.len() {
                assert(s[j] == before[j]);
            }
        }
    }
}

} // verus!
