//! Lookups of lists, resources, tables, texts and icons in a filled reference
//! database.

use vstd::prelude::*;
use vstd::string::*;
use crate::discovery::glued;
use crate::order;
use crate::order::{sort_ranked, text_before, Ranked};
use crate::queries;
use crate::queries::{add_entry, or_nothing, pick_either, EntryInfoModel, VanillaEntryInfo};
use crate::select;
use crate::select::{get_cell, keep_columns, validate_table_name, NamedModel, NamedRow};
use crate::sql;
use crate::sql::{list_marks, list_names, quote};
use crate::text;
use crate::text::{keep_nonempty, list_has, owned, parse_i64, split, text_eq, trim};
use crate::textmap;
use crate::textmap::add_member;

verus! {

// ---------------------------------------------------------------------------
// Queries by key
// ---------------------------------------------------------------------------

/// A query for a key column and some others.
pub open spec fn keyed_sql(key: Seq<char>, columns: Seq<Seq<char>>, table: Seq<char>) -> Seq<char> {
    "SELECT "@ + sql::name_list(seq![key] + columns) + " FROM "@ + sql::quoted(table)
}

#[verifier::loop_isolation(false)]
fn keyed_query(key: &str, columns: &Vec<String>, table: &str) -> (r: String)
    ensures
        r@ == keyed_sql(key@, columns.deep_view(), table@),
{
    let ghost all = columns.deep_view();
    let mut names: Vec<String> = vec![owned(key)];
    assert(names.deep_view() =~= seq![key@] + all.take(0));
    let mut i: usize = 0;
    while i < columns.len()
        invariant
            i <= columns@.len(),
            all == columns.deep_view(),
            names.deep_view() == seq![key@] + all.take(i as int),
        decreases columns@.len() - i,
    {
        let ghost before = names.deep_view();
        let one = columns[i].clone();
        names.push(one);
        assert(all[i as int] == one@);
        assert(names.deep_view() =~= before.push(one@));
        assert(names.deep_view() =~= seq![key@] + all.take(i + 1));
        i += 1;
    }
    assert(all.take(i as int) =~= all);
    let mut s = owned("SELECT ");
    s.append(list_names(&names).as_str());
    s.append(" FROM ");
    s.append(quote(table).as_str());
    s
}

// ---------------------------------------------------------------------------
// Lists
// ---------------------------------------------------------------------------

/// The items of a list.
#[derive(Debug)]
pub struct ListItemsInfo {
    pub uuid: String,
    pub node_id: String,
    pub display_name: String,
    pub items: Vec<String>,
    /// The column that the items stand in.
    pub item_key: String,
}

/// What the items of a list say.
pub struct ListModel {
    pub uuid: Seq<char>,
    pub node_id: Seq<char>,
    pub display_name: Seq<char>,
    pub items: Seq<Seq<char>>,
    pub item_key: Seq<char>,
}

impl DeepView for ListItemsInfo {
    type V = ListModel;

    open spec fn deep_view(&self) -> ListModel {
        ListModel {
            uuid: self.uuid@,
            node_id: self.node_id@,
            display_name: self.display_name@,
            items: self.items.deep_view(),
            item_key: self.item_key@,
        }
    }
}

/// The columns that may hold items, in the order in which they are looked at.
pub open spec fn item_columns() -> Seq<Seq<char>> {
    seq!["Spells"@, "Passives"@, "Skills"@, "Abilities"@, "Equipment"@]
}

/// The columns that a list is read from.
pub open spec fn list_columns() -> Seq<Seq<char>> {
    seq!["Comment"@] + item_columns()
}

/// The query for as many lists as `count`, and its columns. It fails where the
/// name of the table cannot stand in a statement.
pub fn list_items_query(table: &str, columns: &Vec<String>, count: usize) -> (r: Result<
    (String, Vec<String>),
    String,
>)
    ensures
        match r {
            Ok(q) => {
                let k = select::kept(columns.deep_view(), list_columns());
                &&& select::valid_table_name(table@)
                &&& q.0@ == keyed_sql("UUID"@, k, table@) + " WHERE \"UUID\" IN ("@
                    + sql::mark_list(1, count as nat) + ")"@
                &&& q.1.deep_view() == k
            },
            Err(e) => !select::valid_table_name(table@) && e@ == select::table_name_error(table@),
        },
{
    match validate_table_name(table) {
        Ok(_) => {},
        Err(e) => {
            return Err(e);
        },
    }
    let wanted: Vec<&'static str> = vec![
        "Comment",
        "Spells",
        "Passives",
        "Skills",
        "Abilities",
        "Equipment",
    ];
    assert(wanted.deep_view() =~= list_columns());
    let kept = keep_columns(columns, &wanted);
    let mut s = keyed_query("UUID", &kept, table);
    s.append(" WHERE \"UUID\" IN (");
    s.append(list_marks(1, count).as_str());
    s.append(")");
    Ok((s, kept))
}

/// Texts without the blank around them, but for those that are blank.
pub open spec fn tidy(parts: Seq<Seq<char>>) -> Seq<Seq<char>>
    decreases parts.len(),
{
    if parts.len() == 0 {
        Seq::empty()
    } else {
        let before = tidy(parts.drop_last());
        if text::trimmed(parts.last()).len() > 0 {
            before.push(text::trimmed(parts.last()))
        } else {
            before
        }
    }
}

/// The items in a column: what stands between semicolons.
#[verifier::loop_isolation(false)]
pub fn split_items(s: &str) -> (r: Vec<String>)
    ensures
        r.deep_view() == tidy(text::pieces(s@, ';')),
{
    let parts = split(s, ';');
    let ghost all = parts.deep_view();
    let mut r: Vec<String> = Vec::new();
    assert(r.deep_view() =~= tidy(all.take(0)));
    let mut i: usize = 0;
    while i < parts.len()
        invariant
            i <= parts@.len(),
            all == parts.deep_view(),
            r.deep_view() == tidy(all.take(i as int)),
        decreases parts@.len() - i,
    {
        assert(all.take(i + 1).drop_last() =~= all.take(i as int));
        assert(all[i as int] == parts@[i as int]@);
        let ghost before = r.deep_view();
        let item = trim(parts[i].as_str());
        if !item.as_str().is_empty() {
            r.push(item);
            assert(r.deep_view() =~= before.push(item@));
        }
        i += 1;
    }
    assert(all.take(i as int) =~= all);
    r
}

/// The first column from place `i` of the fields on that holds something, and
/// what it holds.
pub open spec fn first_field(
    fields: Seq<Seq<char>>,
    columns: Seq<Seq<char>>,
    cells: Seq<Option<Seq<char>>>,
    i: int,
) -> Option<(Seq<char>, Seq<char>)>
    decreases fields.len() - i,
{
    if i < 0 || i >= fields.len() {
        None
    } else {
        match text::nonempty(select::cell_of(columns, cells, fields[i])) {
            Some(v) => Some((fields[i], v)),
            None => first_field(fields, columns, cells, i + 1),
        }
    }
}

/// A list with its items.
pub open spec fn list_of(node_id: Seq<char>, columns: Seq<Seq<char>>, row: NamedModel) -> ListModel {
    let found = first_field(item_columns(), columns, row.cells, 0);
    ListModel {
        uuid: row.key,
        node_id,
        display_name: text::or_empty(select::cell_of(columns, row.cells, "Comment"@)),
        items: match found {
            Some(f) => tidy(text::pieces(f.1, ';')),
            None => Seq::empty(),
        },
        item_key: match found {
            Some(f) => f.0,
            None => Seq::empty(),
        },
    }
}

#[verifier::loop_isolation(false)]
fn make_list(node_id: &str, columns: &Vec<String>, row: &NamedRow) -> (r: ListItemsInfo)
    ensures
        r.deep_view() == list_of(node_id@, columns.deep_view(), row.deep_view()),
{
    let fields: Vec<&'static str> = vec!["Spells", "Passives", "Skills", "Abilities", "Equipment"];
    assert(fields.deep_view() =~= item_columns());
    let ghost cm = columns.deep_view();
    let ghost rm = row.deep_view();
    let display_name = or_nothing(get_cell(columns, row, "Comment"));
    let mut i: usize = 0;
    while i < fields.len()
        invariant
            i <= fields@.len(),
            fields.deep_view() == item_columns(),
            first_field(item_columns(), cm, rm.cells, i as int) == first_field(
                item_columns(),
                cm,
                rm.cells,
                0,
            ),
        decreases fields@.len() - i,
    {
        assert(item_columns()[i as int] == fields@[i as int]@);
        match keep_nonempty(&get_cell(columns, row, fields[i])) {
            Some(v) => {
                return ListItemsInfo {
                    uuid: row.key.clone(),
                    node_id: owned(node_id),
                    display_name,
                    items: split_items(v.as_str()),
                    item_key: owned(fields[i]),
                };
            },
            None => {},
        }
        i += 1;
    }
    let items: Vec<String> = Vec::new();
    assert(items.deep_view() =~= Seq::<Seq<char>>::empty());
    let item_key = String::new();
    assert(item_key@ =~= Seq::<char>::empty());
    ListItemsInfo { uuid: row.key.clone(), node_id: owned(node_id), display_name, items, item_key }
}

/// The lists in rows of the table of lists. `columns` are the columns that were
/// asked for.
#[verifier::loop_isolation(false)]
pub fn query_list_items(node_id: &str, columns: &Vec<String>, rows: &Vec<NamedRow>) -> (r: Vec<
    ListItemsInfo,
>)
    ensures
        r.deep_view() == Seq::new(
            rows@.len(),
            |i: int| list_of(node_id@, columns.deep_view(), rows.deep_view()[i]),
        ),
{
    let ghost all = rows.deep_view();
    let ghost want = Seq::new(
        rows@.len(),
        |i: int| list_of(node_id@, columns.deep_view(), all[i]),
    );
    let mut r: Vec<ListItemsInfo> = Vec::new();
    assert(r.deep_view() =~= want.take(0));
    let mut i: usize = 0;
    while i < rows.len()
        invariant
            i <= rows@.len(),
            all == rows.deep_view(),
            r.deep_view() == want.take(i as int),
        decreases rows@.len() - i,
    {
        assert(all[i as int] == rows@[i as int].deep_view());
        let ghost before = r.deep_view();
        let one = make_list(node_id, columns, &rows[i]);
        r.push(one);
        assert(r.deep_view() =~= before.push(one.deep_view()));
        assert(want.take(i + 1) =~= want.take(i as int).push(want[i as int]));
        i += 1;
    }
    assert(want.take(i as int) =~= want);
    r
}

// ---------------------------------------------------------------------------
// Resources that cost
// ---------------------------------------------------------------------------

/// A resource, or a group of resources, that something may cost.
#[derive(Debug)]
pub struct CostResourceInfo {
    pub name: String,
    pub display_name: String,
    pub max_level: i32,
    pub kind: String,
}

/// What a resource that something may cost says.
pub struct CostModel {
    pub name: Seq<char>,
    pub display_name: Seq<char>,
    pub max_level: int,
    pub kind: Seq<char>,
}

impl DeepView for CostResourceInfo {
    type V = CostModel;

    open spec fn deep_view(&self) -> CostModel {
        CostModel {
            name: self.name@,
            display_name: self.display_name@,
            max_level: self.max_level as int,
            kind: self.kind@,
        }
    }
}

/// The columns that a resource is read from, besides its name.
pub open spec fn cost_columns(with_level: bool) -> Seq<Seq<char>> {
    if with_level {
        seq!["MaxLevel"@, "DisplayName"@, "Comment"@]
    } else {
        seq!["DisplayName"@, "Comment"@]
    }
}

/// The query for resources and its columns; none where resources have no name.
/// It fails where the name of the table cannot stand in a statement.
pub fn cost_query(table: &str, columns: &Vec<String>, with_level: bool) -> (r: Result<
    Option<(String, Vec<String>)>,
    String,
>)
    ensures
        match r {
            Ok(q) => {
                let k = select::kept(columns.deep_view(), cost_columns(with_level));
                &&& select::valid_table_name(table@)
                &&& q is Some == text::listed(columns.deep_view(), "Name"@)
                &&& q matches Some(p) ==> {
                    &&& p.0@ == keyed_sql("Name"@, k, table@) + " ORDER BY \"Name\""@
                    &&& p.1.deep_view() == k
                }
            },
            Err(e) => !select::valid_table_name(table@) && e@ == select::table_name_error(table@),
        },
{
    match validate_table_name(table) {
        Ok(_) => {},
        Err(e) => {
            return Err(e);
        },
    }
    if !list_has(columns, "Name") {
        return Ok(None);
    }
    let wanted: Vec<&'static str> = if with_level {
        vec!["MaxLevel", "DisplayName", "Comment"]
    } else {
        vec!["DisplayName", "Comment"]
    };
    assert(wanted.deep_view() =~= cost_columns(with_level));
    let kept = keep_columns(columns, &wanted);
    let mut s = keyed_query("Name", &kept, table);
    s.append(" ORDER BY \"Name\"");
    Ok(Some((s, kept)))
}

/// The level that a text denotes, or else zero.
pub open spec fn level_value(s: Option<Seq<char>>) -> int {
    match s {
        Some(t) => match text::number_within(t, i32::MIN as int, i32::MAX as int) {
            Some(n) => n,
            None => 0,
        },
        None => 0,
    }
}

fn parse_level(s: &Option<String>) -> (r: i32)
    ensures
        r == level_value(s.deep_view()),
{
    match s {
        Some(t) => match parse_i64(t.as_str()) {
            Some(n) => if -0x8000_0000 <= n && n <= 0x7fff_ffff {
                n as i32
            } else {
                0
            },
            None => 0,
        },
        None => 0,
    }
}

/// A resource from its row.
pub open spec fn cost_of(kind: Seq<char>, columns: Seq<Seq<char>>, row: NamedModel) -> CostModel {
    CostModel {
        name: row.key,
        display_name: match queries::either(
            text::nonempty(select::cell_of(columns, row.cells, "DisplayName"@)),
            text::nonempty(select::cell_of(columns, row.cells, "Comment"@)),
        ) {
            Some(d) => d,
            None => row.key,
        },
        max_level: level_value(select::cell_of(columns, row.cells, "MaxLevel"@)),
        kind,
    }
}

fn make_cost(kind: &str, columns: &Vec<String>, row: &NamedRow) -> (r: CostResourceInfo)
    ensures
        r.deep_view() == cost_of(kind@, columns.deep_view(), row.deep_view()),
{
    let display_name = match pick_either(
        keep_nonempty(&get_cell(columns, row, "DisplayName")),
        keep_nonempty(&get_cell(columns, row, "Comment")),
    ) {
        Some(d) => d,
        None => row.key.clone(),
    };
    CostResourceInfo {
        name: row.key.clone(),
        display_name,
        max_level: parse_level(&get_cell(columns, row, "MaxLevel")),
        kind: owned(kind),
    }
}

/// The rows of a kind of resource.
pub struct CostRows {
    pub kind: String,
    pub columns: Vec<String>,
    pub rows: Vec<NamedRow>,
}

/// What the rows of a kind of resource say.
pub struct CostRowsModel {
    pub kind: Seq<char>,
    pub columns: Seq<Seq<char>>,
    pub rows: Seq<NamedModel>,
}

impl DeepView for CostRows {
    type V = CostRowsModel;

    open spec fn deep_view(&self) -> CostRowsModel {
        CostRowsModel {
            kind: self.kind@,
            columns: self.columns.deep_view(),
            rows: self.rows.deep_view(),
        }
    }
}

/// A text in lower case: what `str::to_lowercase` yields.
pub uninterp spec fn lower_case(s: Seq<char>) -> Seq<char>;

/// Calls `str::to_lowercase`. The mapping is that of Unicode; it depends on the
/// text alone. Of a text in ASCII it changes the letters `A` to `Z`, and no others.
#[verifier::external_body]
fn to_lower(s: &str) -> (r: String)
    ensures
        r@ == lower_case(s@),
        text::all_ascii(s@) ==> r@ == text::ascii_lowered(s@),
{
    s.to_lowercase()
}

/// A resource with the texts by which it is sorted.
pub struct RankedCost {
    pub info: CostResourceInfo,
    pub display_key: String,
    pub name_key: String,
}

/// What a resource to be sorted says.
pub struct RankedCostModel {
    pub info: CostModel,
    pub display_key: Seq<char>,
    pub name_key: Seq<char>,
}

impl DeepView for RankedCost {
    type V = RankedCostModel;

    open spec fn deep_view(&self) -> RankedCostModel {
        RankedCostModel {
            info: self.info.deep_view(),
            display_key: self.display_key@,
            name_key: self.name_key@,
        }
    }
}

/// Resources by kind, what is shown and name.
impl Ranked for RankedCost {
    open spec fn ranks_before(a: RankedCostModel, b: RankedCostModel) -> bool {
        if a.info.kind != b.info.kind {
            order::text_lt(a.info.kind, b.info.kind)
        } else if a.display_key != b.display_key {
            order::text_lt(a.display_key, b.display_key)
        } else {
            order::text_lt(a.name_key, b.name_key)
        }
    }

    fn goes_before(&self, other: &Self) -> (r: bool) {
        if !text_eq(self.info.kind.as_str(), other.info.kind.as_str()) {
            text_before(self.info.kind.as_str(), other.info.kind.as_str())
        } else if !text_eq(self.display_key.as_str(), other.display_key.as_str()) {
            text_before(self.display_key.as_str(), other.display_key.as_str())
        } else {
            text_before(self.name_key.as_str(), other.name_key.as_str())
        }
    }
}

/// The resources in the order of their keys.
pub open spec fn costs_in_order(items: Seq<RankedCostModel>) -> Seq<CostModel> {
    order::stable_sort(items, order::rank::<RankedCost>()).map_values(|c: RankedCostModel| c.info)
}

/// The resources in the order of their keys.
#[verifier::loop_isolation(false)]
pub fn sort_costs(items: Vec<RankedCost>) -> (r: Vec<CostResourceInfo>)
    ensures
        r.deep_view() == costs_in_order(items.deep_view()),
{
    let ghost want = costs_in_order(items.deep_view());
    let mut sorted = sort_ranked(items);
    let ghost all = sorted.deep_view();
    let mut back: Vec<CostResourceInfo> = Vec::new();
    let mut r: Vec<CostResourceInfo> = Vec::new();
    while sorted.len() > 0
        invariant
            sorted@.len() <= all.len(),
            sorted@.len() + back@.len() == all.len(),
            sorted.deep_view() == all.take(sorted@.len() as int),
            forall|j: int|
                0 <= j < back@.len() ==> (#[trigger] back@[j]).deep_view() == want[all.len() - 1
                    - j],
        decreases sorted@.len(),
    {
        let ghost before = sorted.deep_view();
        let ghost held = sorted@;
        let ghost n = sorted@.len();
        match sorted.pop() {
            Some(c) => {
                assert(before[n - 1] == held[n - 1].deep_view());
                assert(sorted.deep_view() =~= all.take(n - 1));
                assert(c.deep_view() == all[n - 1]);
                back.push(c.info);
            },
            None => {},
        }
    }
    assert(r.deep_view() =~= want.take(0));
    let ghost total = all.len();
    while back.len() > 0
        invariant
            back@.len() + r@.len() == total,
            total == want.len(),
            forall|j: int|
                0 <= j < back@.len() ==> (#[trigger] back@[j]).deep_view() == want[total - 1 - j],
            r.deep_view() == want.take(r@.len() as int),
        decreases back@.len(),
    {
        let ghost before = r.deep_view();
        let ghost n = r@.len();
        let ghost held = back@;
        match back.pop() {
            Some(c) => {
                assert(held[held.len() - 1] == c);
                r.push(c);
                assert(r.deep_view() =~= before.push(c.deep_view()));
                assert(want.take(n as int + 1) =~= want.take(n as int).push(want[n as int]));
            },
            None => {},
        }
    }
    assert(want.take(total as int) =~= want);
    r
}

/// A resource with the lower-case texts by which it is sorted.
pub open spec fn ranked_cost(c: CostModel) -> RankedCostModel {
    RankedCostModel {
        info: c,
        display_key: lower_case(c.display_name),
        name_key: lower_case(c.name),
    }
}

/// A resource with the lower-case texts by which it is sorted.
pub fn rank_cost(info: CostResourceInfo) -> (r: RankedCost)
    ensures
        r.deep_view() == ranked_cost(info.deep_view()),
        text::all_ascii(info.display_name@) ==> r.display_key@ == text::ascii_lowered(
            info.display_name@,
        ),
        text::all_ascii(info.name@) ==> r.name_key@ == text::ascii_lowered(info.name@),
{
    let display_key = to_lower(info.display_name.as_str());
    let name_key = to_lower(info.name.as_str());
    RankedCost { info, display_key, name_key }
}

/// The resources in rows.
pub open spec fn costs_of(groups: Seq<CostRowsModel>) -> Seq<RankedCostModel>
    decreases groups.len(),
{
    if groups.len() == 0 {
        Seq::empty()
    } else {
        let g = groups.last();
        costs_of(groups.drop_last()) + Seq::new(
            g.rows.len(),
            |i: int| ranked_cost(cost_of(g.kind, g.columns, g.rows[i])),
        )
    }
}

#[verifier::loop_isolation(false)]
fn add_costs(out: &mut Vec<RankedCost>, g: &CostRows)
    ensures
        final(out).deep_view() == old(out).deep_view() + Seq::new(
            g.deep_view().rows.len(),
            |i: int|
                ranked_cost(
                    cost_of(g.deep_view().kind, g.deep_view().columns, g.deep_view().rows[i]),
                ),
        ),
{
    let ghost start = out.deep_view();
    let ghost gm = g.deep_view();
    let ghost want = Seq::new(
        gm.rows.len(),
        |i: int| ranked_cost(cost_of(gm.kind, gm.columns, gm.rows[i])),
    );
    assert(gm.rows.len() == g.rows@.len());
    assert(start + want.take(0) =~= start);
    let mut i: usize = 0;
    while i < g.rows.len()
        invariant
            i <= g.rows@.len(),
            out.deep_view() == start + want.take(i as int),
        decreases g.rows@.len() - i,
    {
        assert(gm.rows[i as int] == g.rows@[i as int].deep_view());
        let info = make_cost(g.kind.as_str(), &g.columns, &g.rows[i]);
        let one = rank_cost(info);
        let ghost before = out.deep_view();
        out.push(one);
        assert(out.deep_view() =~= before.push(one.deep_view()));
        assert(want.take(i + 1) =~= want.take(i as int).push(want[i as int]));
        assert(out.deep_view() =~= start + want.take(i + 1));
        i += 1;
    }
    assert(want.take(i as int) =~= want);
}

/// The resources that something may cost: by kind, and then by what is shown and
/// by name, both in lower case.
#[verifier::loop_isolation(false)]
pub fn query_cost_resources(groups: &Vec<CostRows>) -> (r: Vec<CostResourceInfo>)
    ensures
        r.deep_view() == costs_in_order(costs_of(groups.deep_view())),
{
    let ghost all = groups.deep_view();
    let mut items: Vec<RankedCost> = Vec::new();
    assert(items.deep_view() =~= costs_of(all.take(0)));
    let mut i: usize = 0;
    while i < groups.len()
        invariant
            i <= groups@.len(),
            all == groups.deep_view(),
            items.deep_view() == costs_of(all.take(i as int)),
        decreases groups@.len() - i,
    {
        assert(all.take(i + 1).drop_last() =~= all.take(i as int));
        assert(all[i as int] == groups@[i as int].deep_view());
        add_costs(&mut items, &groups[i]);
        i += 1;
    }
    assert(all.take(i as int) =~= all);
    sort_costs(items)
}

// ---------------------------------------------------------------------------
// Tables of progressions and voices
// ---------------------------------------------------------------------------

/// The regions that name tables of progressions, with the column that does.
pub fn progression_targets() -> (r: Vec<(&'static str, &'static str)>)
    ensures
        r.deep_view() == seq![
            ("Progressions"@, "TableUUID"@),
            ("ClassDescriptions"@, "ProgressionTableUUID"@),
            ("Races"@, "ProgressionTableUUID"@),
        ],
{
    let r: Vec<(&'static str, &'static str)> = vec![
        ("Progressions", "TableUUID"),
        ("ClassDescriptions", "ProgressionTableUUID"),
        ("Races", "ProgressionTableUUID"),
    ];
    assert(r.deep_view() =~= seq![
        ("Progressions"@, "TableUUID"@),
        ("ClassDescriptions"@, "ProgressionTableUUID"@),
        ("Races"@, "ProgressionTableUUID"@),
    ]);
    r
}

/// The query for the progression tables that a region names, and whether names
/// are asked for too; none where the column is missing. It fails where the name
/// of the table cannot stand in a statement.
pub fn progression_query(table: &str, attr: &str, columns: &Vec<String>) -> (r: Result<
    Option<(String, bool)>,
    String,
>)
    ensures
        match r {
            Ok(q) => {
                let named = text::listed(columns.deep_view(), "Name"@);
                let also = if named {
                    seq!["Name"@]
                } else {
                    Seq::empty()
                };
                &&& select::valid_table_name(table@)
                &&& q is Some == text::listed(columns.deep_view(), attr@)
                &&& q matches Some(p) ==> {
                    &&& p.0@ == keyed_sql(attr@, also, table@) + " WHERE "@ + sql::quoted(attr@)
                        + " IS NOT NULL AND "@ + sql::quoted(attr@) + " != ''"@
                    &&& p.1 == named
                }
            },
            Err(e) => !select::valid_table_name(table@) && e@ == select::table_name_error(table@),
        },
{
    match validate_table_name(table) {
        Ok(_) => {},
        Err(e) => {
            return Err(e);
        },
    }
    if !list_has(columns, attr) {
        return Ok(None);
    }
    let named = list_has(columns, "Name");
    let mut also: Vec<String> = Vec::new();
    if named {
        also.push(owned("Name"));
        assert(also.deep_view() =~= seq!["Name"@]);
    } else {
        assert(also.deep_view() =~= Seq::<Seq<char>>::empty());
    }
    let mut s = keyed_query(attr, &also, table);
    s.append(" WHERE ");
    s.append(quote(attr).as_str());
    s.append(" IS NOT NULL AND ");
    s.append(quote(attr).as_str());
    s.append(" != ''");
    Ok(Some((s, named)))
}

/// What is added to the names of a region's progression tables.
pub open spec fn table_suffix(region: Seq<char>) -> Seq<char> {
    if region == "Races"@ {
        " (Race)"@
    } else {
        Seq::empty()
    }
}

/// A progression table that a region names.
pub open spec fn progression_entry(region: Seq<char>, uuid: Seq<char>, name: Seq<char>) -> EntryInfoModel {
    EntryInfoModel {
        uuid,
        display_name: if name.len() == 0 {
            uuid
        } else {
            name + table_suffix(region)
        },
        node_id: "ProgressionTable"@,
        color: None,
        parent_guid: None,
        text_handle: None,
    }
}

/// The progression tables of a region, added to those known.
pub open spec fn with_progressions(
    known: Seq<EntryInfoModel>,
    region: Seq<char>,
    rows: Seq<(Seq<char>, Seq<char>)>,
) -> Seq<EntryInfoModel>
    decreases rows.len(),
{
    if rows.len() == 0 {
        known
    } else {
        queries::with_entry(
            with_progressions(known, region, rows.drop_last()),
            progression_entry(region, rows.last().0, rows.last().1),
        )
    }
}

/// The progression tables of all regions, each once.
pub open spec fn progressions_of(regions: Seq<(Seq<char>, Seq<(Seq<char>, Seq<char>)>)>) -> Seq<
    EntryInfoModel,
>
    decreases regions.len(),
{
    if regions.len() == 0 {
        Seq::empty()
    } else {
        with_progressions(
            progressions_of(regions.drop_last()),
            regions.last().0,
            regions.last().1,
        )
    }
}

fn make_progression(region: &str, uuid: &str, name: &str) -> (r: VanillaEntryInfo)
    ensures
        r.deep_view() == progression_entry(region@, uuid@, name@),
{
    let display_name = if name.is_empty() {
        owned(uuid)
    } else if text_eq(region, "Races") {
        glued(name, " (Race)")
    } else {
        assert(name@ + Seq::<char>::empty() =~= name@);
        owned(name)
    };
    VanillaEntryInfo {
        uuid: owned(uuid),
        display_name,
        node_id: owned("ProgressionTable"),
        color: None,
        parent_guid: None,
        text_handle: None,
    }
}

#[verifier::loop_isolation(false)]
fn add_progressions(known: &mut Vec<VanillaEntryInfo>, region: &str, rows: &Vec<(String, String)>)
    ensures
        final(known).deep_view() == with_progressions(
            old(known).deep_view(),
            region@,
            rows.deep_view(),
        ),
{
    let ghost start = known.deep_view();
    let ghost all = rows.deep_view();
    let mut i: usize = 0;
    while i < rows.len()
        invariant
            i <= rows@.len(),
            all == rows.deep_view(),
            known.deep_view() == with_progressions(start, region@, all.take(i as int)),
        decreases rows@.len() - i,
    {
        assert(all.take(i + 1).drop_last() =~= all.take(i as int));
        assert(all[i as int] == (rows@[i as int].0@, rows@[i as int].1@));
        add_entry(
            known,
            make_progression(region, rows[i].0.as_str(), rows[i].1.as_str()),
        );
        i += 1;
    }
    assert(all.take(i as int) =~= all);
}

/// The progression tables that regions name, each once, by what is shown. A
/// region comes with its tables and their names.
#[verifier::loop_isolation(false)]
pub fn query_progression_table_uuids(regions: &Vec<(String, Vec<(String, String)>)>) -> (r: Vec<
    VanillaEntryInfo,
>)
    ensures
        r.deep_view() == order::stable_sort(
            progressions_of(regions.deep_view()),
            order::rank::<VanillaEntryInfo>(),
        ),
{
    let ghost all = regions.deep_view();
    let mut r: Vec<VanillaEntryInfo> = Vec::new();
    assert(r.deep_view() =~= progressions_of(all.take(0)));
    let mut i: usize = 0;
    while i < regions.len()
        invariant
            i <= regions@.len(),
            all == regions.deep_view(),
            r.deep_view() == progressions_of(all.take(i as int)),
        decreases regions@.len() - i,
    {
        assert(all.take(i + 1).drop_last() =~= all.take(i as int));
        assert(all[i as int] == (regions@[i as int].0@, regions@[i as int].1.deep_view()));
        add_progressions(&mut r, regions[i].0.as_str(), &regions[i].1);
        i += 1;
    }
    assert(all.take(i as int) =~= all);
    sort_ranked(r)
}

/// The columns that a voice is read from, besides its key.
pub open spec fn voice_columns() -> Seq<Seq<char>> {
    seq!["TableUUID"@, "Name"@, "DisplayName"@]
}

/// The query for voices, and its columns. It fails where the name of the table
/// cannot stand in a statement.
pub fn voice_query(table: &str, columns: &Vec<String>) -> (r: Result<
    (String, Vec<String>),
    String,
>)
    ensures
        match r {
            Ok(q) => {
                let k = select::kept(columns.deep_view(), voice_columns());
                &&& select::valid_table_name(table@)
                &&& q.0@ == keyed_sql("UUID"@, k, table@)
                &&& q.1.deep_view() == k
            },
            Err(e) => !select::valid_table_name(table@) && e@ == select::table_name_error(table@),
        },
{
    match validate_table_name(table) {
        Ok(_) => {},
        Err(e) => {
            return Err(e);
        },
    }
    let wanted: Vec<&'static str> = vec!["TableUUID", "Name", "DisplayName"];
    assert(wanted.deep_view() =~= voice_columns());
    let kept = keep_columns(columns, &wanted);
    let s = keyed_query("UUID", &kept, table);
    Ok((s, kept))
}

/// The voice table that a row names.
pub open spec fn voice_entry(columns: Seq<Seq<char>>, row: NamedModel) -> EntryInfoModel {
    EntryInfoModel {
        uuid: match text::nonempty(select::cell_of(columns, row.cells, "TableUUID"@)) {
            Some(t) => t,
            None => row.key,
        },
        display_name: text::or_empty(
            queries::either(
                select::cell_of(columns, row.cells, "Name"@),
                select::cell_of(columns, row.cells, "DisplayName"@),
            ),
        ),
        node_id: "VoiceTable"@,
        color: None,
        parent_guid: None,
        text_handle: None,
    }
}

/// The voice tables that rows name, each once.
pub open spec fn voices_of(columns: Seq<Seq<char>>, rows: Seq<NamedModel>) -> Seq<EntryInfoModel>
    decreases rows.len(),
{
    if rows.len() == 0 {
        Seq::empty()
    } else {
        queries::with_entry(
            voices_of(columns, rows.drop_last()),
            voice_entry(columns, rows.last()),
        )
    }
}

fn make_voice(columns: &Vec<String>, row: &NamedRow) -> (r: VanillaEntryInfo)
    ensures
        r.deep_view() == voice_entry(columns.deep_view(), row.deep_view()),
{
    let uuid = match keep_nonempty(&get_cell(columns, row, "TableUUID")) {
        Some(t) => t,
        None => row.key.clone(),
    };
    let name = pick_either(get_cell(columns, row, "Name"), get_cell(columns, row, "DisplayName"));
    VanillaEntryInfo {
        uuid,
        display_name: or_nothing(name),
        node_id: owned("VoiceTable"),
        color: None,
        parent_guid: None,
        text_handle: None,
    }
}

/// The voice tables that rows name, each once, by what is shown.
#[verifier::loop_isolation(false)]
pub fn query_voice_table_uuids(columns: &Vec<String>, rows: &Vec<NamedRow>) -> (r: Vec<
    VanillaEntryInfo,
>)
    ensures
        r.deep_view() == order::stable_sort(
            voices_of(columns.deep_view(), rows.deep_view()),
            order::rank::<VanillaEntryInfo>(),
        ),
{
    let ghost all = rows.deep_view();
    let mut r: Vec<VanillaEntryInfo> = Vec::new();
    assert(r.deep_view() =~= voices_of(columns.deep_view(), all.take(0)));
    let mut i: usize = 0;
    while i < rows.len()
        invariant
            i <= rows@.len(),
            all == rows.deep_view(),
            r.deep_view() == voices_of(columns.deep_view(), all.take(i as int)),
        decreases rows@.len() - i,
    {
        assert(all.take(i + 1).drop_last() =~= all.take(i as int));
        assert(all[i as int] == rows@[i as int].deep_view());
        add_entry(&mut r, make_voice(columns, &rows[i]));
        i += 1;
    }
    assert(all.take(i as int) =~= all);
    sort_ranked(r)
}

// ---------------------------------------------------------------------------
// Texts and selectors
// ---------------------------------------------------------------------------

/// A localized text.
#[derive(Debug)]
pub struct LocaEntry {
    pub handle: String,
    pub text: String,
}

/// What a localized text says.
pub struct LocaEntryModel {
    pub handle: Seq<char>,
    pub text: Seq<char>,
}

impl DeepView for LocaEntry {
    type V = LocaEntryModel;

    open spec fn deep_view(&self) -> LocaEntryModel {
        LocaEntryModel { handle: self.handle@, text: self.text@ }
    }
}

/// The query for localized texts. It fails where the name of the table cannot
/// stand in a statement.
pub fn localization_query(table: &str) -> (r: Result<String, String>)
    ensures
        match r {
            Ok(s) => select::valid_table_name(table@) && s@
                == "SELECT \"contentuid\", \"text\" FROM "@ + sql::quoted(table@)
                + " ORDER BY \"contentuid\""@,
            Err(e) => !select::valid_table_name(table@) && e@ == select::table_name_error(table@),
        },
{
    match validate_table_name(table) {
        Ok(_) => {},
        Err(e) => {
            return Err(e);
        },
    }
    let mut s = owned("SELECT \"contentuid\", \"text\" FROM ");
    s.append(quote(table).as_str());
    s.append(" ORDER BY \"contentuid\"");
    Ok(s)
}

/// The localized texts in rows; a missing text is empty.
#[verifier::loop_isolation(false)]
pub fn query_localization_map(rows: &Vec<(String, Option<String>)>) -> (r: Vec<LocaEntry>)
    ensures
        r.deep_view() == Seq::new(
            rows@.len(),
            |i: int|
                LocaEntryModel {
                    handle: rows.deep_view()[i].0,
                    text: text::or_empty(rows.deep_view()[i].1),
                },
        ),
{
    let ghost all = rows.deep_view();
    let ghost want = Seq::new(
        rows@.len(),
        |i: int| LocaEntryModel { handle: all[i].0, text: text::or_empty(all[i].1) },
    );
    let mut r: Vec<LocaEntry> = Vec::new();
    assert(r.deep_view() =~= want.take(0));
    let mut i: usize = 0;
    while i < rows.len()
        invariant
            i <= rows@.len(),
            all == rows.deep_view(),
            r.deep_view() == want.take(i as int),
        decreases rows@.len() - i,
    {
        assert(all[i as int] == (rows@[i as int].0@, rows@[i as int].1.deep_view()));
        let ghost before = r.deep_view();
        let one = LocaEntry {
            handle: rows[i].0.clone(),
            text: or_nothing(text::copy_opt(&rows[i].1)),
        };
        r.push(one);
        assert(r.deep_view() =~= before.push(one.deep_view()));
        assert(want.take(i + 1) =~= want.take(i as int).push(want[i as int]));
        i += 1;
    }
    assert(want.take(i as int) =~= want);
    r
}

/// The query for the selectors of progressions; none where there is no such
/// column. It fails where the name of the table cannot stand in a statement.
pub fn selector_query(table: &str, columns: &Vec<String>) -> (r: Result<Option<String>, String>)
    ensures
        match r {
            Ok(q) => {
                &&& select::valid_table_name(table@)
                &&& q is Some == text::listed(columns.deep_view(), "SelectorId"@)
                &&& q matches Some(s) ==> s@ == "SELECT DISTINCT \"SelectorId\" FROM "@
                    + sql::quoted(table@)
                    + " WHERE \"SelectorId\" IS NOT NULL AND \"SelectorId\" != '' ORDER BY \"SelectorId\""@
            },
            Err(e) => !select::valid_table_name(table@) && e@ == select::table_name_error(table@),
        },
{
    match validate_table_name(table) {
        Ok(_) => {},
        Err(e) => {
            return Err(e);
        },
    }
    if !list_has(columns, "SelectorId") {
        return Ok(None);
    }
    let mut s = owned("SELECT DISTINCT \"SelectorId\" FROM ");
    s.append(quote(table).as_str());
    s.append(
        " WHERE \"SelectorId\" IS NOT NULL AND \"SelectorId\" != '' ORDER BY \"SelectorId\"",
    );
    Ok(Some(s))
}

/// The selectors, each with where it comes from.
#[verifier::loop_isolation(false)]
pub fn query_selector_ids(ids: &Vec<String>) -> (r: Vec<(String, String)>)
    ensures
        r.deep_view() == Seq::new(ids@.len(), |i: int| (ids.deep_view()[i], "Vanilla"@)),
{
    let ghost all = ids.deep_view();
    let ghost want = Seq::new(ids@.len(), |i: int| (all[i], "Vanilla"@));
    let mut r: Vec<(String, String)> = Vec::new();
    assert(r.deep_view() =~= want.take(0));
    let mut i: usize = 0;
    while i < ids.len()
        invariant
            i <= ids@.len(),
            all == ids.deep_view(),
            r.deep_view() == want.take(i as int),
        decreases ids@.len() - i,
    {
        assert(all[i as int] == ids@[i as int]@);
        let ghost before = r.deep_view();
        let one = (ids[i].clone(), owned("Vanilla"));
        r.push(one);
        assert(r.deep_view() =~= before.push((one.0@, one.1@)));
        assert(want.take(i + 1) =~= want.take(i as int).push(want[i as int]));
        i += 1;
    }
    assert(want.take(i as int) =~= want);
    r
}

/// The query for value lists, all of them or the one asked for.
pub fn value_lists_query(list_key: &str) -> (r: String)
    ensures
        r@ == if list_key@.len() == 0 {
            "SELECT list_key, value_name FROM valuelist_entries ORDER BY list_key, value_index"@
        } else {
            "SELECT list_key, value_name FROM valuelist_entries WHERE list_key = ?1 ORDER BY value_index"@
        },
{
    if list_key.is_empty() {
        owned("SELECT list_key, value_name FROM valuelist_entries ORDER BY list_key, value_index")
    } else {
        owned(
            "SELECT list_key, value_name FROM valuelist_entries WHERE list_key = ?1 ORDER BY value_index",
        )
    }
}

/// Lists with one more value: it goes to the last list if that has its key, and
/// to a new one otherwise.
pub open spec fn with_list_value(
    lists: Seq<(Seq<char>, Seq<Seq<char>>)>,
    key: Seq<char>,
    value: Seq<char>,
) -> Seq<(Seq<char>, Seq<Seq<char>>)> {
    if lists.len() > 0 && lists.last().0 == key {
        lists.drop_last().push((key, lists.last().1.push(value)))
    } else {
        lists.push((key, seq![value]))
    }
}

/// The lists that rows of keys and values make.
pub open spec fn value_lists(rows: Seq<(Seq<char>, Seq<char>)>) -> Seq<
    (Seq<char>, Seq<Seq<char>>),
>
    decreases rows.len(),
{
    if rows.len() == 0 {
        Seq::empty()
    } else {
        with_list_value(value_lists(rows.drop_last()), rows.last().0, rows.last().1)
    }
}

/// The values of lists, with their keys, one after another.
pub open spec fn listed_values(lists: Seq<(Seq<char>, Seq<Seq<char>>)>) -> Seq<
    (Seq<char>, Seq<char>),
>
    decreases lists.len(),
{
    if lists.len() == 0 {
        Seq::empty()
    } else {
        let l = lists.last();
        listed_values(lists.drop_last()) + Seq::new(l.1.len(), |i: int| (l.0, l.1[i]))
    }
}

/// Value lists hold every value that was stored, with its key, in order.
pub proof fn law_value_lists_hold_all(rows: Seq<(Seq<char>, Seq<char>)>)
    ensures
        listed_values(value_lists(rows)) == rows,
    decreases rows.len(),
{
    if rows.len() > 0 {
        law_value_lists_hold_all(rows.drop_last());
        let before = value_lists(rows.drop_last());
        let after = value_lists(rows);
        let last = rows.last();
        if before.len() > 0 && before.last().0 == last.0 {
            assert(after.drop_last() =~= before.drop_last());
            assert(after.last() == (last.0, before.last().1.push(last.1)));
            assert(Seq::new(after.last().1.len(), |i: int| (after.last().0, after.last().1[i]))
                =~= Seq::new(
                before.last().1.len(),
                |i: int| (before.last().0, before.last().1[i]),
            ).push(last));
        } else {
            assert(after.drop_last() =~= before);
            assert(Seq::new(after.last().1.len(), |i: int| (after.last().0, after.last().1[i]))
                =~= seq![last]);
        }
        assert(listed_values(after) =~= listed_values(before).push(last));
        assert(rows =~= rows.drop_last().push(last));
    }
}

fn add_list_value(lists: &mut Vec<(String, Vec<String>)>, key: &str, value: &str)
    ensures
        final(lists).deep_view() == with_list_value(old(lists).deep_view(), key@, value@),
{
    let ghost before = lists.deep_view();
    let ghost held = lists@;
    assert(before.len() == held.len());
    if lists.len() > 0 {
        assert(before.last() == (held.last().0@, held.last().1.deep_view()));
        let n: usize = lists.len() - 1;
        if text_eq(lists[n].0.as_str(), key) {
            match lists.pop() {
                Some(last) => {
                    let mut values = last.1;
                    let ghost old_values = values.deep_view();
                    values.push(owned(value));
                    assert(values.deep_view() =~= old_values.push(value@));
                    lists.push((last.0, values));
                    assert(lists.deep_view() =~= with_list_value(before, key@, value@));
                },
                None => {},
            }
            return;
        }
    }
    let values: Vec<String> = vec![owned(value)];
    assert(values.deep_view() =~= seq![value@]);
    lists.push((owned(key), values));
    assert(lists.deep_view() =~= with_list_value(before, key@, value@));
}

/// The value lists in rows of keys and values that are sorted by key.
#[verifier::loop_isolation(false)]
pub fn query_value_lists(rows: &Vec<(String, String)>) -> (r: Vec<(String, Vec<String>)>)
    ensures
        r.deep_view() == value_lists(rows.deep_view()),
{
    let ghost all = rows.deep_view();
    let mut r: Vec<(String, Vec<String>)> = Vec::new();
    assert(r.deep_view() =~= value_lists(all.take(0)));
    let mut i: usize = 0;
    while i < rows.len()
        invariant
            i <= rows@.len(),
            all == rows.deep_view(),
            r.deep_view() == value_lists(all.take(i as int)),
        decreases rows@.len() - i,
    {
        assert(all.take(i + 1).drop_last() =~= all.take(i as int));
        assert(all[i as int] == (rows@[i as int].0@, rows@[i as int].1@));
        add_list_value(&mut r, rows[i].0.as_str(), rows[i].1.as_str());
        i += 1;
    }
    assert(all.take(i as int) =~= all);
    r
}

// ---------------------------------------------------------------------------
// Icons
// ---------------------------------------------------------------------------

/// The query for the names of icons; none where there is no such column.
pub fn icon_query(table: &str, columns: &Vec<String>) -> (r: Option<String>)
    ensures
        r is Some == text::listed(columns.deep_view(), "MapKey"@),
        r matches Some(s) ==> s@ == "SELECT \"MapKey\" FROM "@ + sql::quoted(table@)
            + " WHERE \"MapKey\" IS NOT NULL AND \"MapKey\" != '' ORDER BY \"MapKey\""@,
{
    if !list_has(columns, "MapKey") {
        return None;
    }
    let mut s = owned("SELECT \"MapKey\" FROM ");
    s.append(quote(table).as_str());
    s.append(" WHERE \"MapKey\" IS NOT NULL AND \"MapKey\" != '' ORDER BY \"MapKey\"");
    Some(s)
}

/// Names with those of a list added, each once.
pub open spec fn with_names(known: Seq<Seq<char>>, names: Seq<Seq<char>>) -> Seq<Seq<char>>
    decreases names.len(),
{
    if names.len() == 0 {
        known
    } else {
        textmap::with_member(with_names(known, names.drop_last()), names.last())
    }
}

/// The names in lists, each once.
pub open spec fn names_of(tables: Seq<Seq<Seq<char>>>) -> Seq<Seq<char>>
    decreases tables.len(),
{
    if tables.len() == 0 {
        Seq::empty()
    } else {
        with_names(names_of(tables.drop_last()), tables.last())
    }
}

#[verifier::loop_isolation(false)]
fn add_names(known: &mut Vec<String>, names: &Vec<String>)
    ensures
        final(known).deep_view() == with_names(old(known).deep_view(), names.deep_view()),
{
    let ghost start = known.deep_view();
    let ghost all = names.deep_view();
    let mut i: usize = 0;
    while i < names.len()
        invariant
            i <= names@.len(),
            all == names.deep_view(),
            known.deep_view() == with_names(start, all.take(i as int)),
        decreases names@.len() - i,
    {
        assert(all.take(i + 1).drop_last() =~= all.take(i as int));
        assert(all[i as int] == names@[i as int]@);
        add_member(known, names[i].as_str());
        i += 1;
    }
    assert(all.take(i as int) =~= all);
}

/// The names of icons in order, each once, given those in each table.
#[verifier::loop_isolation(false)]
pub fn query_icon_names(tables: &Vec<Vec<String>>) -> (r: Vec<String>)
    ensures
        r.deep_view() == order::stable_sort(
            names_of(tables.deep_view()),
            order::rank::<String>(),
        ),
{
    let ghost all = tables.deep_view();
    let mut r: Vec<String> = Vec::new();
    assert(r.deep_view() =~= names_of(all.take(0)));
    let mut i: usize = 0;
    while i < tables.len()
        invariant
            i <= tables@.len(),
            all == tables.deep_view(),
            r.deep_view() == names_of(all.take(i as int)),
        decreases tables@.len() - i,
    {
        assert(all.take(i + 1).drop_last() =~= all.take(i as int));
        assert(all[i as int] == tables@[i as int].deep_view());
        add_names(&mut r, &tables[i]);
        i += 1;
    }
    assert(all.take(i as int) =~= all);
    sort_ranked(r)
}

/// The query for the paths of atlases by file; none where the table cannot say
/// so.
pub fn atlas_query(table: &str, columns: &Vec<String>) -> (r: Option<String>)
    ensures
        r is Some == (select::valid_table_name(table@) && text::listed(
            columns.deep_view(),
            "_file_id"@,
        ) && text::listed(columns.deep_view(), "Path"@)),
        r matches Some(s) ==> s@ == "SELECT _file_id, \"Path\" FROM "@ + sql::quoted(table@)
            + " WHERE \"Path\" IS NOT NULL AND \"Path\" != '' AND _file_id IS NOT NULL"@,
{
    match validate_table_name(table) {
        Ok(_) => {},
        Err(_) => {
            return None;
        },
    }
    if !list_has(columns, "_file_id") || !list_has(columns, "Path") {
        return None;
    }
    let mut s = owned("SELECT _file_id, \"Path\" FROM ");
    s.append(quote(table).as_str());
    s.append(" WHERE \"Path\" IS NOT NULL AND \"Path\" != '' AND _file_id IS NOT NULL");
    Some(s)
}

/// Whether a table says where in which file an icon stands.
pub open spec fn places_icons(table: Seq<char>, columns: Seq<Seq<char>>) -> bool {
    &&& select::valid_table_name(table)
    &&& text::listed(columns, "MapKey"@)
    &&& text::listed(columns, "U1"@)
    &&& text::listed(columns, "V1"@)
    &&& text::listed(columns, "U2"@)
    &&& text::listed(columns, "V2"@)
    &&& text::listed(columns, "_file_id"@)
}

/// The query for the places of icons; none where the table cannot say so.
pub fn icon_places_query(table: &str, columns: &Vec<String>) -> (r: Option<String>)
    ensures
        r is Some == places_icons(table@, columns.deep_view()),
        r matches Some(s) ==> s@
            == "SELECT \"MapKey\", \"U1\", \"V1\", \"U2\", \"V2\", _file_id FROM "@ + sql::quoted(
            table@,
        ) + " WHERE \"MapKey\" IS NOT NULL AND \"MapKey\" != ''"@,
{
    match validate_table_name(table) {
        Ok(_) => {},
        Err(_) => {
            return None;
        },
    }
    if !list_has(columns, "MapKey") || !list_has(columns, "U1") || !list_has(columns, "V1")
        || !list_has(columns, "U2") || !list_has(columns, "V2") || !list_has(columns, "_file_id") {
        return None;
    }
    let mut s = owned("SELECT \"MapKey\", \"U1\", \"V1\", \"U2\", \"V2\", _file_id FROM ");
    s.append(quote(table).as_str());
    s.append(" WHERE \"MapKey\" IS NOT NULL AND \"MapKey\" != ''");
    Some(s)
}

/// An icon in an atlas.
#[derive(Debug)]
pub struct IconAtlasEntry {
    pub map_key: String,
    pub atlas_path: String,
    /// The row that says where in the atlas the icon stands.
    pub row: usize,
}

/// What an icon in an atlas says.
pub struct AtlasModel {
    pub map_key: Seq<char>,
    pub atlas_path: Seq<char>,
    pub row: int,
}

impl DeepView for IconAtlasEntry {
    type V = AtlasModel;

    open spec fn deep_view(&self) -> AtlasModel {
        AtlasModel { map_key: self.map_key@, atlas_path: self.atlas_path@, row: self.row as int }
    }
}

/// Icons by name.
impl Ranked for IconAtlasEntry {
    open spec fn ranks_before(a: AtlasModel, b: AtlasModel) -> bool {
        order::text_lt(a.map_key, b.map_key)
    }

    fn goes_before(&self, other: &Self) -> (r: bool) {
        text_before(self.map_key.as_str(), other.map_key.as_str())
    }
}

/// The atlas of a file: the first path from place `i` on that is given for it.
pub open spec fn path_for(paths: Seq<(i64, Seq<char>)>, file: i64, i: int) -> Option<Seq<char>>
    decreases paths.len() - i,
{
    if i < 0 || i >= paths.len() {
        None
    } else if paths[i].0 == file {
        Some(paths[i].1)
    } else {
        path_for(paths, file, i + 1)
    }
}

/// Whether an icon of the given name is among the first rows.
pub open spec fn named_before(rows: Seq<(Seq<char>, i64)>, key: Seq<char>, n: int) -> bool {
    exists|i: int| 0 <= i < n && (#[trigger] rows[i]).0 == key
}

/// The icons in the first `n` rows: the first row of each name counts, and only
/// where the atlas of its file is known.
pub open spec fn atlas_icons(
    paths: Seq<(i64, Seq<char>)>,
    rows: Seq<(Seq<char>, i64)>,
    n: int,
) -> Seq<AtlasModel>
    decreases n,
{
    if n <= 0 {
        Seq::empty()
    } else {
        let before = atlas_icons(paths, rows, n - 1);
        let row = rows[n - 1];
        if row.0.len() == 0 || named_before(rows, row.0, n - 1) {
            before
        } else {
            match path_for(paths, row.1, 0) {
                Some(p) => before.push(
                    AtlasModel { map_key: row.0, atlas_path: p, row: n - 1 },
                ),
                None => before,
            }
        }
    }
}

#[verifier::loop_isolation(false)]
fn find_path(paths: &Vec<(i64, String)>, file: i64) -> (r: Option<String>)
    ensures
        r.deep_view() == path_for(paths.deep_view(), file, 0),
{
    let ghost all = paths.deep_view();
    let mut i: usize = 0;
    while i < paths.len()
        invariant
            i <= paths@.len(),
            all == paths.deep_view(),
            path_for(all, file, i as int) == path_for(all, file, 0),
        decreases paths@.len() - i,
    {
        assert(all[i as int] == (paths@[i as int].0, paths@[i as int].1@));
        if paths[i].0 == file {
            return Some(paths[i].1.clone());
        }
        i += 1;
    }
    None
}

#[verifier::loop_isolation(false)]
fn seen_before(rows: &Vec<(String, i64)>, key: &str, n: usize) -> (r: bool)
    requires
        n <= rows@.len(),
    ensures
        r == named_before(rows.deep_view(), key@, n as int),
{
    let ghost all = rows.deep_view();
    let mut i: usize = 0;
    while i < n
        invariant
            i <= n,
            n <= rows@.len(),
            all == rows.deep_view(),
            forall|j: int| 0 <= j < i ==> (#[trigger] all[j]).0 != key@,
        decreases n - i,
    {
        assert(all[i as int] == (rows@[i as int].0@, rows@[i as int].1));
        if text_eq(rows[i].0.as_str(), key) {
            return true;
        }
        i += 1;
    }
    false
}

/// The icons with their atlases by name, given the paths of atlases by file and
/// the rows that place icons, each with its file.
#[verifier::loop_isolation(false)]
pub fn query_icon_atlas_data(paths: &Vec<(i64, String)>, rows: &Vec<(String, i64)>) -> (r: Vec<
    IconAtlasEntry,
>)
    ensures
        r.deep_view() == order::stable_sort(
            atlas_icons(paths.deep_view(), rows.deep_view(), rows@.len() as int),
            order::rank::<IconAtlasEntry>(),
        ),
{
    let ghost pm = paths.deep_view();
    let ghost all = rows.deep_view();
    let mut r: Vec<IconAtlasEntry> = Vec::new();
    assert(r.deep_view() =~= atlas_icons(pm, all, 0));
    let mut i: usize = 0;
    while i < rows.len()
        invariant
            i <= rows@.len(),
            all == rows.deep_view(),
            r.deep_view() == atlas_icons(pm, all, i as int),
        decreases rows@.len() - i,
    {
        assert(all[i as int] == (rows@[i as int].0@, rows@[i as int].1));
        let ghost before = r.deep_view();
        let key = &rows[i].0;
        if !key.as_str().is_empty() && !seen_before(rows, key.as_str(), i) {
            match find_path(paths, rows[i].1) {
                Some(p) => {
                    let one = IconAtlasEntry { map_key: key.clone(), atlas_path: p, row: i };
                    r.push(one);
                    assert(r.deep_view() =~= before.push(one.deep_view()));
                },
                None => {},
            }
        }
        i += 1;
    }
    sort_ranked(r)
}

/// No icon is listed twice, and every icon's path is that of its file.
pub proof fn law_icons_once(paths: Seq<(i64, Seq<char>)>, rows: Seq<(Seq<char>, i64)>, n: int)
    requires
        0 <= n <= rows.len(),
    ensures
        ({
            let r = atlas_icons(paths, rows, n);
            &&& forall|i: int, j: int|
                0 <= i < j < r.len() ==> (#[trigger] r[i]).map_key != (#[trigger] r[j]).map_key
            &&& forall|i: int|
                0 <= i < r.len() ==> {
                    &&& 0 <= (#[trigger] r[i]).row < n
                    &&& rows[r[i].row].0 == r[i].map_key
                    &&& path_for(paths, rows[r[i].row].1, 0) == Some(r[i].atlas_path)
                }
        }),
    decreases n,
{
    if n > 0 {
        law_icons_once(paths, rows, n - 1);
    }
}

// ---------------------------------------------------------------------------
// Equipment
// ---------------------------------------------------------------------------

/// The query for the names of all equipment sets.
pub fn equipment_query() -> (r: String)
    ensures
        r@ == "SELECT \"_entry_name\" FROM \"stats__equipment\" ORDER BY \"_entry_name\""@,
{
    owned("SELECT \"_entry_name\" FROM \"stats__equipment\" ORDER BY \"_entry_name\"")
}

/// The texts of the rows that could be read, in order.
pub open spec fn readable(rows: Seq<Option<Seq<char>>>) -> Seq<Seq<char>>
    decreases rows.len(),
{
    if rows.len() == 0 {
        Seq::empty()
    } else {
        match rows.last() {
            Some(name) => readable(rows.drop_last()).push(name),
            None => readable(rows.drop_last()),
        }
    }
}

/// The names of all equipment sets, in the order of the rows; a row whose name is
/// no text is left out.
#[verifier::loop_isolation(false)]
pub fn query_equipment_names(rows: &Vec<Option<String>>) -> (r: Vec<String>)
    ensures
        r.deep_view() == readable(rows.deep_view()),
{
    let ghost all = rows.deep_view();
    let mut r: Vec<String> = Vec::new();
    assert(r.deep_view() =~= readable(all.take(0)));
    let mut i: usize = 0;
    while i < rows.len()
        invariant
            i <= rows@.len(),
            all == rows.deep_view(),
            r.deep_view() == readable(all.take(i as int)),
        decreases rows@.len() - i,
    {
        assert(all.take(i + 1).drop_last() =~= all.take(i as int));
        assert(all[i as int] == rows@[i as int].deep_view());
        let ghost before = r.deep_view();
        match &rows[i] {
            Some(name) => {
                r.push(name.clone());
                assert(r.deep_view() =~= before.push(name@));
            },
            None => {},
        }
        i += 1;
    }
    assert(all.take(i as int) =~= all);
    r
}

} // verus!
