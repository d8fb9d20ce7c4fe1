//! Whole entries read back from a filled reference database.

use vstd::prelude::*;
use crate::discovery::glued;
use crate::models::{AttributeModel, ChildModel, EntryModel, GroupModel, LsxAttribute, LsxChildEntry,
    LsxChildGroup, LsxEntry, Section, SectionModel};
use crate::queries;
use crate::queries::find_entry_type;
use crate::schema_query;
use crate::schema_query::is_identifier;
use crate::select;
use crate::select::{text_of_cell, validate_table_name, Cell, CellModel};
use crate::text;
use crate::text::{copy_list, keep_nonempty, owned, starts_with, strip_prefix, text_eq};
use crate::textmap;
use crate::textmap::{place_of, TextMap};

verus! {

// ---------------------------------------------------------------------------
// Columns and values
// ---------------------------------------------------------------------------

/// The columns that hold values of entries.
pub open spec fn data_columns(columns: Seq<Seq<char>>) -> Seq<Seq<char>>
    decreases columns.len(),
{
    if columns.len() == 0 {
        Seq::empty()
    } else {
        let before = data_columns(columns.drop_last());
        if "_"@.is_prefix_of(columns.last()) {
            before
        } else {
            before.push(columns.last())
        }
    }
}

/// The columns that hold values of entries.
#[verifier::loop_isolation(false)]
pub fn keep_data_columns(columns: &Vec<String>) -> (r: Vec<String>)
    ensures
        r.deep_view() == data_columns(columns.deep_view()),
{
    let ghost all = columns.deep_view();
    let mut r: Vec<String> = Vec::new();
    assert(r.deep_view() =~= data_columns(all.take(0)));
    let mut i: usize = 0;
    while i < columns.len()
        invariant
            i <= columns@.len(),
            all == columns.deep_view(),
            r.deep_view() == data_columns(all.take(i as int)),
        decreases columns@.len() - i,
    {
        assert(all.take(i + 1).drop_last() =~= all.take(i as int));
        assert(all[i as int] == columns@[i as int]@);
        let ghost before = r.deep_view();
        if !starts_with(columns[i].as_str(), "_") {
            let one = columns[i].clone();
            r.push(one);
            assert(r.deep_view() =~= before.push(one@));
        }
        i += 1;
    }
    assert(all.take(i as int) =~= all);
    r
}

/// The types of columns, where they are known.
pub open spec fn types_of(rows: Seq<(Seq<char>, Option<Seq<char>>)>) -> Seq<(Seq<char>, Seq<char>)>
    decreases rows.len(),
{
    if rows.len() == 0 {
        Seq::empty()
    } else {
        let before = types_of(rows.drop_last());
        match rows.last().1 {
            Some(t) => textmap::with_value(before, rows.last().0, t),
            None => before,
        }
    }
}

/// The types of columns, where they are known.
#[verifier::loop_isolation(false)]
pub fn column_type_map(rows: &Vec<(String, Option<String>)>) -> (r: TextMap<String>)
    ensures
        r.deep_view() == types_of(rows.deep_view()),
{
    let ghost all = rows.deep_view();
    let mut r: TextMap<String> = TextMap::new();
    assert(all.take(0) =~= Seq::<(Seq<char>, Option<Seq<char>>)>::empty());
    let mut i: usize = 0;
    while i < rows.len()
        invariant
            i <= rows@.len(),
            all == rows.deep_view(),
            r.deep_view() == types_of(all.take(i as int)),
        decreases rows@.len() - i,
    {
        assert(all.take(i + 1).drop_last() =~= all.take(i as int));
        assert(all[i as int] == (rows@[i as int].0@, rows@[i as int].1.deep_view()));
        match &rows[i].1 {
            Some(t) => r.insert(rows[i].0.clone(), t.clone()),
            None => {},
        }
        i += 1;
    }
    assert(all.take(i as int) =~= all);
    r
}

/// What stands in a row at place `i`, where it is not empty.
pub open spec fn row_value(cells: Seq<CellModel>, i: int) -> Option<Seq<char>> {
    if 0 <= i < cells.len() {
        text::nonempty(select::cell_text(cells[i]))
    } else {
        None
    }
}

fn get_value(cells: &Vec<Cell>, i: usize) -> (r: Option<String>)
    ensures
        r.deep_view() == row_value(cells.deep_view(), i as int),
{
    assert(cells.deep_view().len() == cells@.len());
    if i < cells.len() {
        assert(cells.deep_view()[i as int] == cells@[i as int].deep_view());
        keep_nonempty(&text_of_cell(&cells[i]))
    } else {
        None
    }
}

// ---------------------------------------------------------------------------
// Entries of regions
// ---------------------------------------------------------------------------

/// The attributes in the first `n` columns of a row.
pub open spec fn row_attrs(
    columns: Seq<Seq<char>>,
    types: Seq<(Seq<char>, Seq<char>)>,
    cells: Seq<CellModel>,
    n: int,
) -> Seq<(Seq<char>, AttributeModel)>
    decreases n,
{
    if n <= 0 {
        Seq::empty()
    } else {
        let before = row_attrs(columns, types, cells, n - 1);
        match row_value(cells, n - 1) {
            Some(v) => textmap::with_value(
                before,
                columns[n - 1],
                AttributeModel {
                    attr_type: match textmap::value_of(types, columns[n - 1]) {
                        Some(t) => t,
                        None => "LSString"@,
                    },
                    value: v,
                },
            ),
            None => before,
        }
    }
}

/// The identifier in the first `n` columns of a row, or nothing.
pub open spec fn row_key(columns: Seq<Seq<char>>, cells: Seq<CellModel>, n: int) -> Seq<char>
    decreases n,
{
    if n <= 0 {
        Seq::empty()
    } else if schema_query::identifies(columns[n - 1]) && row_value(cells, n - 1) is Some {
        row_value(cells, n - 1)->0
    } else {
        row_key(columns, cells, n - 1)
    }
}

/// The entry in a row.
pub open spec fn row_entry(
    node_id: Seq<char>,
    columns: Seq<Seq<char>>,
    types: Seq<(Seq<char>, Seq<char>)>,
    cells: Seq<CellModel>,
) -> EntryModel {
    EntryModel {
        uuid: row_key(columns, cells, columns.len() as int),
        node_id,
        attributes: row_attrs(columns, types, cells, columns.len() as int),
        children: Seq::empty(),
        commented: false,
        region_id: Seq::empty(),
    }
}

#[verifier::loop_isolation(false)]
fn make_entry(
    node_id: &str,
    columns: &Vec<String>,
    types: &TextMap<String>,
    cells: &Vec<Cell>,
) -> (r: LsxEntry)
    ensures
        r.deep_view() == row_entry(
            node_id@,
            columns.deep_view(),
            types.deep_view(),
            cells.deep_view(),
        ),
{
    let ghost cm = columns.deep_view();
    let ghost tm = types.deep_view();
    let ghost vm = cells.deep_view();
    let mut attributes: TextMap<LsxAttribute> = TextMap::new();
    let mut uuid = String::new();
    assert(uuid@ =~= Seq::<char>::empty());
    let mut i: usize = 0;
    while i < columns.len()
        invariant
            i <= columns@.len(),
            cm == columns.deep_view(),
            attributes.deep_view() == row_attrs(cm, tm, vm, i as int),
            uuid@ == row_key(cm, vm, i as int),
        decreases columns@.len() - i,
    {
        assert(cm[i as int] == columns@[i as int]@);
        match get_value(cells, i) {
            Some(v) => {
                let attr_type = match types.get(columns[i].as_str()) {
                    Some(t) => t.clone(),
                    None => owned("LSString"),
                };
                attributes.insert(columns[i].clone(), LsxAttribute { attr_type, value: v.clone() });
                if is_identifier(columns[i].as_str()) {
                    uuid = v;
                }
            },
            None => {},
        }
        i += 1;
    }
    let children: Vec<LsxChildGroup> = Vec::new();
    assert(children.deep_view() =~= Seq::<GroupModel>::empty());
    let region_id = String::new();
    assert(region_id@ =~= Seq::<char>::empty());
    LsxEntry { uuid, node_id: owned(node_id), attributes, children, commented: false, region_id }
}

/// The entries in rows by identifier. Rows without one count for nothing; of
/// several with the same one the last counts.
pub open spec fn row_entries(
    node_id: Seq<char>,
    columns: Seq<Seq<char>>,
    types: Seq<(Seq<char>, Seq<char>)>,
    rows: Seq<Seq<CellModel>>,
) -> Seq<(Seq<char>, EntryModel)>
    decreases rows.len(),
{
    if rows.len() == 0 {
        Seq::empty()
    } else {
        let before = row_entries(node_id, columns, types, rows.drop_last());
        let e = row_entry(node_id, columns, types, rows.last());
        if e.uuid.len() == 0 {
            before
        } else {
            textmap::with_value(before, e.uuid, e)
        }
    }
}

#[verifier::loop_isolation(false)]
fn make_entries(
    node_id: &str,
    columns: &Vec<String>,
    types: &TextMap<String>,
    rows: &Vec<Vec<Cell>>,
) -> (r: TextMap<LsxEntry>)
    ensures
        r.deep_view() == row_entries(
            node_id@,
            columns.deep_view(),
            types.deep_view(),
            rows.deep_view(),
        ),
{
    let ghost all = rows.deep_view();
    let ghost cm = columns.deep_view();
    let ghost tm = types.deep_view();
    let mut r: TextMap<LsxEntry> = TextMap::new();
    assert(all.take(0) =~= Seq::<Seq<CellModel>>::empty());
    let mut i: usize = 0;
    while i < rows.len()
        invariant
            i <= rows@.len(),
            all == rows.deep_view(),
            r.deep_view() == row_entries(node_id@, cm, tm, all.take(i as int)),
        decreases rows@.len() - i,
    {
        assert(all.take(i + 1).drop_last() =~= all.take(i as int));
        assert(all[i as int] == rows@[i as int].deep_view());
        let e = make_entry(node_id, columns, types, &rows[i]);
        if !e.uuid.as_str().is_empty() {
            r.insert(e.uuid.clone(), e);
        }
        i += 1;
    }
    assert(all.take(i as int) =~= all);
    r
}

/// The place of the first group of a name from place `i` on, or their number.
pub open spec fn group_at(groups: Seq<GroupModel>, id: Seq<char>, i: int) -> int
    decreases groups.len() - i,
{
    if i < 0 || i >= groups.len() {
        groups.len() as int
    } else if groups[i].group_id == id {
        i
    } else {
        group_at(groups, id, i + 1)
    }
}

/// Groups with one more child, in the group of the given name.
pub open spec fn with_child(groups: Seq<GroupModel>, id: Seq<char>, child: ChildModel) -> Seq<
    GroupModel,
> {
    let g = group_at(groups, id, 0);
    if 0 <= g < groups.len() {
        groups.update(g, GroupModel { group_id: groups[g].group_id, entries: groups[g].entries.push(child) })
    } else {
        groups.push(GroupModel { group_id: id, entries: seq![child] })
    }
}

#[verifier::loop_isolation(false)]
fn add_child(groups: &mut Vec<LsxChildGroup>, id: &str, child: LsxChildEntry)
    ensures
        final(groups).deep_view() == with_child(old(groups).deep_view(), id@, child.deep_view()),
{
    let ghost all = groups.deep_view();
    let ghost held = groups@;
    let mut i: usize = 0;
    while i < groups.len()
        invariant
            i <= groups@.len(),
            groups@ == held,
            all == groups.deep_view(),
            group_at(all, id@, i as int) == group_at(all, id@, 0),
        decreases groups@.len() - i,
    {
        assert(all[i as int] == groups@[i as int].deep_view());
        if text_eq(groups[i].group_id.as_str(), id) {
            groups[i].entries.push(child);
            assert(groups@[i as int].entries.deep_view() =~= all[i as int].entries.push(
                child.deep_view(),
            ));
            assert(groups.deep_view() =~= with_child(all, id@, child.deep_view()));
            return;
        }
        i += 1;
    }
    let entries: Vec<LsxChildEntry> = vec![child];
    assert(entries.deep_view() =~= seq![child.deep_view()]);
    groups.push(LsxChildGroup { group_id: owned(id), entries });
    assert(groups.deep_view() =~= with_child(all, id@, child.deep_view()));
}

/// Entries with one more child below the entry of the given identifier, if there
/// is one.
pub open spec fn with_link(
    entries: Seq<(Seq<char>, EntryModel)>,
    parent: Seq<char>,
    group: Seq<char>,
    child: ChildModel,
) -> Seq<(Seq<char>, EntryModel)> {
    match textmap::key_pos(entries, parent) {
        Some(i) => entries.update(
            i,
            (
                entries[i].0,
                EntryModel {
                    children: with_child(entries[i].1.children, group, child),
                    ..entries[i].1
                },
            ),
        ),
        None => entries,
    }
}

fn add_link(entries: &mut TextMap<LsxEntry>, parent: &str, group: &str, child: LsxChildEntry)
    ensures
        final(entries).deep_view() == with_link(
            old(entries).deep_view(),
            parent@,
            group@,
            child.deep_view(),
        ),
{
    let ghost all = entries.deep_view();
    let ghost held = entries.entries@;
    match place_of(&entries.entries, parent) {
        Some(i) => {
            assert(all[i as int] == (held[i as int].0@, held[i as int].1.deep_view()));
            add_child(&mut entries.entries[i].1.children, group, child);
            assert(entries.deep_view() =~= with_link(all, parent@, group@, child.deep_view()));
        },
        None => {},
    }
}

/// A junction with the pairs of identifiers that it links.
pub struct LinkRows {
    pub junction: String,
    /// The kind of node that the children are.
    pub node_id: Option<String>,
    pub pairs: Vec<(String, String)>,
}

/// What a junction with its pairs says.
pub struct LinkRowsModel {
    pub junction: Seq<char>,
    pub node_id: Option<Seq<char>>,
    pub pairs: Seq<(Seq<char>, Seq<char>)>,
}

impl DeepView for LinkRows {
    type V = LinkRowsModel;

    open spec fn deep_view(&self) -> LinkRowsModel {
        LinkRowsModel {
            junction: self.junction@,
            node_id: self.node_id.deep_view(),
            pairs: self.pairs.deep_view(),
        }
    }
}

/// The group that the children of a junction belong to.
pub open spec fn group_of(table: Seq<char>, junction: Seq<char>) -> Seq<char> {
    match text::stripped(junction, table + "__to__"@) {
        Some(g) => g,
        None => junction,
    }
}

/// The pattern of the names of a table's junctions.
pub fn junction_pattern(table: &str) -> (r: String)
    ensures
        r@ == table@ + "__to__"@ + "%"@,
{
    glued(glued(table, "__to__").as_str(), "%")
}

/// Entries with the children that pairs link to them.
pub open spec fn with_pairs(
    entries: Seq<(Seq<char>, EntryModel)>,
    group: Seq<char>,
    node_id: Seq<char>,
    pairs: Seq<(Seq<char>, Seq<char>)>,
) -> Seq<(Seq<char>, EntryModel)>
    decreases pairs.len(),
{
    if pairs.len() == 0 {
        entries
    } else {
        with_link(
            with_pairs(entries, group, node_id, pairs.drop_last()),
            pairs.last().0,
            group,
            ChildModel { node_id, object_guid: pairs.last().1 },
        )
    }
}

/// Entries with the children that a junction links to them.
pub open spec fn with_junction(
    entries: Seq<(Seq<char>, EntryModel)>,
    table: Seq<char>,
    j: LinkRowsModel,
) -> Seq<(Seq<char>, EntryModel)> {
    let group = group_of(table, j.junction);
    let node_id = match j.node_id {
        Some(n) => n,
        None => group,
    };
    with_pairs(entries, group, node_id, j.pairs)
}

/// Entries with the children that junctions link to them.
pub open spec fn with_junctions(
    entries: Seq<(Seq<char>, EntryModel)>,
    table: Seq<char>,
    junctions: Seq<LinkRowsModel>,
) -> Seq<(Seq<char>, EntryModel)>
    decreases junctions.len(),
{
    if junctions.len() == 0 {
        entries
    } else {
        with_junction(
            with_junctions(entries, table, junctions.drop_last()),
            table,
            junctions.last(),
        )
    }
}

#[verifier::loop_isolation(false)]
fn add_junction(entries: &mut TextMap<LsxEntry>, table: &str, j: &LinkRows)
    ensures
        final(entries).deep_view() == with_junction(
            old(entries).deep_view(),
            table@,
            j.deep_view(),
        ),
{
    let prefix = glued(table, "__to__");
    let group = match strip_prefix(j.junction.as_str(), prefix.as_str()) {
        Some(g) => g,
        None => j.junction.clone(),
    };
    let node_id = match &j.node_id {
        Some(n) => n.clone(),
        None => group.clone(),
    };
    let ghost start = entries.deep_view();
    let ghost all = j.pairs.deep_view();
    let mut i: usize = 0;
    while i < j.pairs.len()
        invariant
            i <= j.pairs@.len(),
            all == j.pairs.deep_view(),
            entries.deep_view() == with_pairs(start, group@, node_id@, all.take(i as int)),
        decreases j.pairs@.len() - i,
    {
        assert(all.take(i + 1).drop_last() =~= all.take(i as int));
        let p = &j.pairs[i];
        assert(all[i as int] == (p.0@, p.1@));
        let child = LsxChildEntry { node_id: node_id.clone(), object_guid: p.1.clone() };
        add_link(entries, p.0.as_str(), group.as_str(), child);
        i += 1;
    }
    assert(all.take(i as int) =~= all);
}

/// What the database holds of a region.
pub struct RegionRows {
    pub table: String,
    pub node_id: String,
    /// The columns that hold values of entries.
    pub columns: Vec<String>,
    pub types: Vec<(String, Option<String>)>,
    pub rows: Vec<Vec<Cell>>,
    pub junctions: Vec<LinkRows>,
}

/// What the rows of a region say.
pub struct RegionRowsModel {
    pub table: Seq<char>,
    pub node_id: Seq<char>,
    pub columns: Seq<Seq<char>>,
    pub types: Seq<(Seq<char>, Option<Seq<char>>)>,
    pub rows: Seq<Seq<CellModel>>,
    pub junctions: Seq<LinkRowsModel>,
}

impl DeepView for RegionRows {
    type V = RegionRowsModel;

    open spec fn deep_view(&self) -> RegionRowsModel {
        RegionRowsModel {
            table: self.table@,
            node_id: self.node_id@,
            columns: self.columns.deep_view(),
            types: self.types.deep_view(),
            rows: self.rows.deep_view(),
            junctions: self.junctions.deep_view(),
        }
    }
}

/// The entries of a region.
pub open spec fn region_entries(r: RegionRowsModel) -> Seq<(Seq<char>, EntryModel)> {
    with_junctions(
        row_entries(r.node_id, r.columns, types_of(r.types), r.rows),
        r.table,
        r.junctions,
    )
}

/// The tables of a region that are read: its main table, and its junctions.
pub open spec fn region_tables(r: RegionRowsModel) -> Seq<Seq<char>> {
    seq![r.table] + Seq::new(r.junctions.len(), |i: int| r.junctions[i].junction)
}

/// The entries of a region by identifier, with all attributes and children; none
/// where the database does not hold the region. It fails where the name of a
/// table cannot stand in a statement.
#[verifier::loop_isolation(false)]
pub fn query_vanilla_lsx_by_region(found: &Option<RegionRows>) -> (r: Result<
    TextMap<LsxEntry>,
    String,
>)
    ensures
        match found {
            None => r matches Ok(m) && m.deep_view().len() == 0,
            Some(rows) => match r {
                Ok(m) => queries::all_valid(region_tables(rows.deep_view())) && m.deep_view()
                    == region_entries(rows.deep_view()),
                Err(e) => {
                    let tables = region_tables(rows.deep_view());
                    exists|i: int| #[trigger]
                        queries::first_invalid(tables, i) && e@ == select::table_name_error(
                            tables[i],
                        )
                },
            },
        },
{
    let rows = match found {
        Some(rows) => rows,
        None => {
            return Ok(TextMap::new());
        },
    };
    let ghost rm = rows.deep_view();
    let ghost tables = region_tables(rm);
    assert(rm.junctions.len() == rows.junctions@.len());
    match validate_table_name(rows.table.as_str()) {
        Ok(_) => {},
        Err(e) => {
            assert(queries::first_invalid(tables, 0));
            return Err(e);
        },
    }
    let types = column_type_map(&rows.types);
    let mut entries = make_entries(rows.node_id.as_str(), &rows.columns, &types, &rows.rows);
    let ghost start = entries.deep_view();
    assert(rm.junctions.take(0) =~= Seq::<LinkRowsModel>::empty());
    let mut i: usize = 0;
    while i < rows.junctions.len()
        invariant
            i <= rows.junctions@.len(),
            rm == rows.deep_view(),
            tables == region_tables(rm),
            forall|j: int| 0 <= j <= i ==> select::valid_table_name(#[trigger] tables[j]),
            entries.deep_view() == with_junctions(start, rm.table, rm.junctions.take(i as int)),
        decreases rows.junctions@.len() - i,
    {
        assert(rm.junctions.take(i + 1).drop_last() =~= rm.junctions.take(i as int));
        let j = &rows.junctions[i];
        assert(rm.junctions[i as int] == j.deep_view());
        assert(tables[i + 1] == j.junction@);
        match validate_table_name(j.junction.as_str()) {
            Ok(_) => {},
            Err(e) => {
                assert(queries::first_invalid(tables, i + 1));
                return Err(e);
            },
        }
        add_junction(&mut entries, rows.table.as_str(), j);
        i += 1;
    }
    assert(rm.junctions.take(i as int) =~= rm.junctions);
    Ok(entries)
}

/// An identifier has one entry, which bears it and is of the region's kind.
pub proof fn law_entries_bear_keys(
    node_id: Seq<char>,
    columns: Seq<Seq<char>>,
    types: Seq<(Seq<char>, Seq<char>)>,
    rows: Seq<Seq<CellModel>>,
)
    ensures
        ({
            let m = row_entries(node_id, columns, types, rows);
            &&& textmap::distinct(m)
            &&& forall|i: int|
                0 <= i < m.len() ==> (#[trigger] m[i]).1.uuid == m[i].0 && m[i].0.len() > 0
                    && m[i].1.node_id == node_id
        }),
    decreases rows.len(),
{
    if rows.len() > 0 {
        law_entries_bear_keys(node_id, columns, types, rows.drop_last());
        let before = row_entries(node_id, columns, types, rows.drop_last());
        let e = row_entry(node_id, columns, types, rows.last());
        textmap::law_with_value(before, e.uuid, e, e.uuid);
        textmap::lemma_key_pos(before, e.uuid);
    }
}

/// Linking children changes neither identifiers nor anything but the children.
pub proof fn law_link_keeps_entries(
    entries: Seq<(Seq<char>, EntryModel)>,
    parent: Seq<char>,
    group: Seq<char>,
    child: ChildModel,
)
    ensures
        with_link(entries, parent, group, child).len() == entries.len(),
        forall|i: int|
            0 <= i < entries.len() ==> {
                let before = #[trigger] entries[i];
                let after = with_link(entries, parent, group, child)[i];
                &&& after.0 == before.0
                &&& after.1 == EntryModel { children: after.1.children, ..before.1 }
            },
{
    textmap::lemma_key_pos(entries, parent);
}

// ---------------------------------------------------------------------------
// Entries of sections
// ---------------------------------------------------------------------------

/// The regions that a section is read from.
pub open spec fn scan_regions(section: SectionModel) -> Seq<Seq<char>> {
    if section.region_ids.len() <= 1 {
        seq![section.region_id]
    } else {
        section.region_ids
    }
}

/// The regions that a section is read from.
pub fn list_scan_regions(section: &Section) -> (r: Vec<String>)
    ensures
        r.deep_view() == scan_regions(section.deep_view()),
{
    assert(section.region_ids.deep_view().len() == section.region_ids@.len());
    if section.region_ids.len() <= 1 {
        let r: Vec<String> = vec![section.region_id.clone()];
        assert(r.deep_view() =~= seq![section.region_id@]);
        r
    } else {
        copy_list(&section.region_ids)
    }
}

/// The entries of the regions that could be read; a later region's entry takes
/// the place of an earlier one's.
pub open spec fn merged_entries(results: Seq<Result<TextMap<LsxEntry>, String>>) -> Seq<
    (Seq<char>, EntryModel),
>
    decreases results.len(),
{
    if results.len() == 0 {
        Seq::empty()
    } else {
        let before = merged_entries(results.drop_last());
        match results.last() {
            Ok(m) => textmap::with_all(before, m.deep_view()),
            Err(_) => before,
        }
    }
}

/// The entries of a section, given those of each region that it is read from. A
/// section of several regions has those of the regions that could be read.
#[verifier::loop_isolation(false)]
pub fn query_vanilla_lsx_for_scan(
    section: &Section,
    results: Vec<Result<TextMap<LsxEntry>, String>>,
) -> (r: Result<TextMap<LsxEntry>, String>)
    requires
        results@.len() == scan_regions(section.deep_view()).len(),
    ensures
        if section.region_ids@.len() <= 1 {
            r == results@[0]
        } else {
            r matches Ok(m) && m.deep_view() == merged_entries(results@)
        },
{
    assert(section.region_ids.deep_view().len() == section.region_ids@.len());
    let ghost all = results@;
    let ghost total = all.len();
    let mut rest = results;
    if section.region_ids.len() <= 1 {
        return rest.remove(0);
    }
    let mut back: Vec<Result<TextMap<LsxEntry>, String>> = Vec::new();
    while rest.len() > 0
        invariant
            rest@.len() + back@.len() == total,
            forall|j: int| 0 <= j < rest@.len() ==> all[j] == #[trigger] rest@[j],
            forall|j: int| 0 <= j < back@.len() ==> all[total - 1 - j] == #[trigger] back@[j],
        decreases rest@.len(),
    {
        let ghost held = rest@;
        match rest.pop() {
            Some(p) => {
                assert(held[held.len() - 1] == p);
                back.push(p);
            },
            None => {},
        }
    }
    let mut merged: TextMap<LsxEntry> = TextMap::new();
    assert(all.take(0) =~= Seq::<Result<TextMap<LsxEntry>, String>>::empty());
    let ghost mut i: int = 0;
    while back.len() > 0
        invariant
            0 <= i <= total,
            i + back@.len() == total,
            total == all.len(),
            forall|j: int| 0 <= j < back@.len() ==> all[total - 1 - j] == #[trigger] back@[j],
            merged.deep_view() == merged_entries(all.take(i)),
        decreases back@.len(),
    {
        let ghost held = back@;
        match back.pop() {
            Some(p) => {
                assert(held[held.len() - 1] == p);
                assert(all.take(i + 1).drop_last() =~= all.take(i));
                match p {
                    Ok(m) => merged.extend(m),
                    Err(_) => {},
                }
                proof {
                    i = i + 1;
                }
            },
            None => {},
        }
    }
    assert(all.take(i) =~= all);
    Ok(merged)
}

// ---------------------------------------------------------------------------
// Stats entries
// ---------------------------------------------------------------------------

/// A stats entry.
#[derive(Debug)]
pub struct StatsEntry {
    pub name: String,
    pub entry_type: String,
    /// The entry whose fields it takes over.
    pub parent: Option<String>,
    pub data: TextMap<String>,
}

/// What a stats entry says.
pub struct StatsEntryModel {
    pub name: Seq<char>,
    pub entry_type: Seq<char>,
    pub parent: Option<Seq<char>>,
    pub data: Seq<(Seq<char>, Seq<char>)>,
}

impl DeepView for StatsEntry {
    type V = StatsEntryModel;

    open spec fn deep_view(&self) -> StatsEntryModel {
        StatsEntryModel {
            name: self.name@,
            entry_type: self.entry_type@,
            parent: self.parent.deep_view(),
            data: self.data.deep_view(),
        }
    }
}

/// The stats entry in the first `n` columns of a row.
pub open spec fn stats_entry(
    entry_type: Seq<char>,
    columns: Seq<Seq<char>>,
    cells: Seq<CellModel>,
    n: int,
) -> StatsEntryModel
    decreases n,
{
    if n <= 0 {
        StatsEntryModel {
            name: Seq::empty(),
            entry_type,
            parent: None,
            data: Seq::empty(),
        }
    } else {
        let before = stats_entry(entry_type, columns, cells, n - 1);
        let value = row_value(cells, n - 1);
        if columns[n - 1] == "_entry_name"@ {
            StatsEntryModel { name: text::or_empty(value), ..before }
        } else if columns[n - 1] == "_using"@ {
            StatsEntryModel { parent: value, ..before }
        } else if "_"@.is_prefix_of(columns[n - 1]) || value is None {
            before
        } else {
            StatsEntryModel {
                data: textmap::with_value(before.data, columns[n - 1], value->0),
                ..before
            }
        }
    }
}

#[verifier::loop_isolation(false)]
fn make_stats_entry(entry_type: &str, columns: &Vec<String>, cells: &Vec<Cell>) -> (r: StatsEntry)
    ensures
        r.deep_view() == stats_entry(
            entry_type@,
            columns.deep_view(),
            cells.deep_view(),
            columns@.len() as int,
        ),
{
    let ghost cm = columns.deep_view();
    let ghost vm = cells.deep_view();
    let name = String::new();
    assert(name@ =~= Seq::<char>::empty());
    let mut r = StatsEntry {
        name,
        entry_type: owned(entry_type),
        parent: None,
        data: TextMap::new(),
    };
    let mut i: usize = 0;
    while i < columns.len()
        invariant
            i <= columns@.len(),
            cm == columns.deep_view(),
            r.deep_view() == stats_entry(entry_type@, cm, vm, i as int),
        decreases columns@.len() - i,
    {
        assert(cm[i as int] == columns@[i as int]@);
        let value = get_value(cells, i);
        let column = columns[i].as_str();
        if text_eq(column, "_entry_name") {
            r.name = queries::or_nothing(value);
        } else if text_eq(column, "_using") {
            r.parent = value;
        } else if !starts_with(column, "_") {
            match value {
                Some(v) => r.data.insert(columns[i].clone(), v),
                None => {},
            }
        }
        i += 1;
    }
    r
}

/// What the database holds in a stats table.
pub struct StatsRows {
    pub table: String,
    pub columns: Vec<String>,
    pub rows: Vec<Vec<Cell>>,
}

/// What the rows of a stats table say.
pub struct StatsRowsModel {
    pub table: Seq<char>,
    pub columns: Seq<Seq<char>>,
    pub rows: Seq<Seq<CellModel>>,
}

impl DeepView for StatsRows {
    type V = StatsRowsModel;

    open spec fn deep_view(&self) -> StatsRowsModel {
        StatsRowsModel {
            table: self.table@,
            columns: self.columns.deep_view(),
            rows: self.rows.deep_view(),
        }
    }
}

/// Entries with those in rows of a stats table; rows without a name count for
/// nothing.
pub open spec fn with_stats_rows(
    known: Seq<(Seq<char>, StatsEntryModel)>,
    t: StatsRowsModel,
    n: int,
) -> Seq<(Seq<char>, StatsEntryModel)>
    decreases n,
{
    if n <= 0 {
        known
    } else {
        let before = with_stats_rows(known, t, n - 1);
        let e = stats_entry(
            queries::entry_type_of(t.table),
            t.columns,
            t.rows[n - 1],
            t.columns.len() as int,
        );
        if e.name.len() == 0 {
            before
        } else {
            textmap::with_value(before, e.name, e)
        }
    }
}

/// The entries in stats tables by name; of several with the same name the last
/// counts.
pub open spec fn stats_entries(tables: Seq<StatsRowsModel>) -> Seq<(Seq<char>, StatsEntryModel)>
    decreases tables.len(),
{
    if tables.len() == 0 {
        Seq::empty()
    } else {
        with_stats_rows(
            stats_entries(tables.drop_last()),
            tables.last(),
            tables.last().rows.len() as int,
        )
    }
}

#[verifier::loop_isolation(false)]
fn add_stats_rows(known: &mut TextMap<StatsEntry>, t: &StatsRows)
    ensures
        final(known).deep_view() == with_stats_rows(
            old(known).deep_view(),
            t.deep_view(),
            t.rows@.len() as int,
        ),
{
    let ghost start = known.deep_view();
    let ghost tm = t.deep_view();
    let entry_type = find_entry_type(t.table.as_str());
    let mut i: usize = 0;
    while i < t.rows.len()
        invariant
            i <= t.rows@.len(),
            tm == t.deep_view(),
            known.deep_view() == with_stats_rows(start, tm, i as int),
        decreases t.rows@.len() - i,
    {
        assert(tm.rows[i as int] == t.rows@[i as int].deep_view());
        assert(tm.columns.len() == t.columns@.len());
        let e = make_stats_entry(entry_type.as_str(), &t.columns, &t.rows[i]);
        if !e.name.as_str().is_empty() {
            known.insert(e.name.clone(), e);
        }
        i += 1;
    }
}

/// The names of stats tables.
pub open spec fn stats_names(tables: Seq<StatsRowsModel>) -> Seq<Seq<char>> {
    Seq::new(tables.len(), |i: int| tables[i].table)
}

/// The entries in stats tables by name, with all fields. It fails where the name
/// of a table cannot stand in a statement.
#[verifier::loop_isolation(false)]
pub fn query_vanilla_stats_for_scan(tables: &Vec<StatsRows>) -> (r: Result<
    TextMap<StatsEntry>,
    String,
>)
    ensures
        match r {
            Ok(m) => queries::all_valid(stats_names(tables.deep_view())) && m.deep_view()
                == stats_entries(tables.deep_view()),
            Err(e) => {
                let names = stats_names(tables.deep_view());
                exists|i: int| #[trigger]
                    queries::first_invalid(names, i) && e@ == select::table_name_error(names[i])
            },
        },
{
    let ghost all = tables.deep_view();
    let ghost names = stats_names(all);
    let mut r: TextMap<StatsEntry> = TextMap::new();
    assert(all.take(0) =~= Seq::<StatsRowsModel>::empty());
    let mut i: usize = 0;
    while i < tables.len()
        invariant
            i <= tables@.len(),
            all == tables.deep_view(),
            forall|j: int| 0 <= j < i ==> select::valid_table_name(#[trigger] names[j]),
            r.deep_view() == stats_entries(all.take(i as int)),
        decreases tables@.len() - i,
    {
        assert(all.take(i + 1).drop_last() =~= all.take(i as int));
        let t = &tables[i];
        assert(all[i as int] == t.deep_view());
        assert(names[i as int] == t.table@);
        assert(t.deep_view().rows.len() == t.rows@.len());
        match validate_table_name(t.table.as_str()) {
            Ok(_) => {},
            Err(e) => {
                assert(queries::first_invalid(names, i as int));
                return Err(e);
            },
        }
        add_stats_rows(&mut r, t);
        i += 1;
    }
    assert(all.take(i as int) =~= all);
    Ok(r)
}

} // verus!
