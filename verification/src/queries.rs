//! Lookups in a filled reference database: what is asked, and what becomes of
//! the answers.

use vstd::prelude::*;
use vstd::string::*;
use crate::discovery::glued;
use crate::models::Section;
use crate::order;
use crate::order::{sort_ranked, text_before, Ranked};
use crate::select;
use crate::select::{entries_query, find_key, get_cell, keep_columns, text_of_cell,
    validate_table_name, Cell, CellModel, NamedModel, NamedRow};
use crate::sql;
use crate::text;
use crate::text::{copy_list, copy_opt, ends_with, keep_nonempty, owned, split, strip_prefix,
    text_eq};
use crate::textmap;
use crate::textmap::{add_member, TextMap};

verus! {

// ---------------------------------------------------------------------------
// Entries
// ---------------------------------------------------------------------------

/// An entry as it is shown in lists.
#[derive(Debug)]
pub struct VanillaEntryInfo {
    pub uuid: String,
    pub display_name: String,
    pub node_id: String,
    /// The color as it is stored.
    pub color: Option<String>,
    pub parent_guid: Option<String>,
    pub text_handle: Option<String>,
}

/// What an entry in lists says.
pub struct EntryInfoModel {
    pub uuid: Seq<char>,
    pub display_name: Seq<char>,
    pub node_id: Seq<char>,
    pub color: Option<Seq<char>>,
    pub parent_guid: Option<Seq<char>>,
    pub text_handle: Option<Seq<char>>,
}

impl DeepView for VanillaEntryInfo {
    type V = EntryInfoModel;

    open spec fn deep_view(&self) -> EntryInfoModel {
        EntryInfoModel {
            uuid: self.uuid@,
            display_name: self.display_name@,
            node_id: self.node_id@,
            color: self.color.deep_view(),
            parent_guid: self.parent_guid.deep_view(),
            text_handle: self.text_handle.deep_view(),
        }
    }
}

/// Entries by the name that is shown.
impl Ranked for VanillaEntryInfo {
    open spec fn ranks_before(a: EntryInfoModel, b: EntryInfoModel) -> bool {
        order::text_lt(a.display_name, b.display_name)
    }

    fn goes_before(&self, other: &Self) -> (r: bool) {
        text_before(self.display_name.as_str(), other.display_name.as_str())
    }
}

/// The first of two texts that is there.
pub open spec fn either(a: Option<Seq<char>>, b: Option<Seq<char>>) -> Option<Seq<char>> {
    if a is Some {
        a
    } else {
        b
    }
}

pub fn pick_either(a: Option<String>, b: Option<String>) -> (r: Option<String>)
    ensures
        r.deep_view() == either(a.deep_view(), b.deep_view()),
{
    match a {
        Some(s) => Some(s),
        None => b,
    }
}

pub fn or_nothing(s: Option<String>) -> (r: String)
    ensures
        r@ == text::or_empty(s.deep_view()),
{
    match s {
        Some(t) => t,
        None => {
            let none = String::new();
            assert(none@ =~= Seq::<char>::empty());
            none
        },
    }
}

/// The name of an entry as its section shows it.
pub open spec fn shown_name(
    section: Seq<char>,
    name: Seq<char>,
    level: Option<Seq<char>>,
    comment: Option<Seq<char>>,
    display: Option<Seq<char>>,
) -> Seq<char> {
    if section == "Progressions"@ {
        name + " Lv"@ + (match level {
            Some(l) => l,
            None => "?"@,
        })
    } else if section == "Lists"@ {
        text::or_empty(comment)
    } else if section == "Backgrounds"@ || section == "Origins"@ {
        match text::nonempty(display) {
            Some(d) => d,
            None => name,
        }
    } else {
        name
    }
}

/// The name of an entry as its section shows it.
pub fn format_display_name(
    section: &str,
    name: &str,
    level: &Option<String>,
    comment: &Option<String>,
    display_name_attr: &Option<String>,
) -> (r: String)
    ensures
        r@ == shown_name(
            section@,
            name@,
            level.deep_view(),
            comment.deep_view(),
            display_name_attr.deep_view(),
        ),
{
    if text_eq(section, "Progressions") {
        let mut r = glued(name, " Lv");
        match level {
            Some(l) => r.append(l.as_str()),
            None => r.append("?"),
        }
        r
    } else if text_eq(section, "Lists") {
        or_nothing(copy_opt(comment))
    } else if text_eq(section, "Backgrounds") || text_eq(section, "Origins") {
        match keep_nonempty(display_name_attr) {
            Some(d) => d,
            None => owned(name),
        }
    } else {
        owned(name)
    }
}

/// The columns that tell how an entry is shown.
pub open spec fn vanilla_columns() -> Seq<Seq<char>> {
    seq!["Name"@, "Level"@, "Comment"@, "DisplayName"@, "ParentGuid"@, "Color"@]
}

fn list_vanilla_columns() -> (r: Vec<&'static str>)
    ensures
        r.deep_view() == vanilla_columns(),
{
    let r: Vec<&'static str> = vec![
        "Name",
        "Level",
        "Comment",
        "DisplayName",
        "ParentGuid",
        "Color",
    ];
    assert(r.deep_view() =~= vanilla_columns());
    r
}

/// The query for the entries of a section, and its columns. It fails where the
/// name of the table cannot stand in a statement.
pub fn vanilla_entries_query(table: &str, columns: &Vec<String>) -> (r: Result<
    (String, Vec<String>),
    String,
>)
    ensures
        match r {
            Ok(q) => {
                let k = select::kept(columns.deep_view(), vanilla_columns());
                &&& select::valid_table_name(table@)
                &&& q.0@ == select::entries_sql(table@, select::key_among(columns.deep_view()), k)
                    + " LIMIT ?1 OFFSET ?2"@
                &&& q.1.deep_view() == k
            },
            Err(e) => !select::valid_table_name(table@) && e@ == select::table_name_error(table@),
        },
{
    match validate_table_name(table) {
        Ok(_) => {},
        Err(e) => {
            return Err(e);
        },
    }
    let wanted = list_vanilla_columns();
    let kept = keep_columns(columns, &wanted);
    let mut sql = entries_query(table, find_key(columns), &kept);
    sql.append(" LIMIT ?1 OFFSET ?2");
    Ok((sql, kept))
}

/// An entry of a section.
pub open spec fn vanilla_entry(
    section: Seq<char>,
    node_id: Seq<char>,
    columns: Seq<Seq<char>>,
    row: NamedModel,
) -> EntryInfoModel {
    EntryInfoModel {
        uuid: row.key,
        display_name: shown_name(
            section,
            text::or_empty(select::cell_of(columns, row.cells, "Name"@)),
            select::cell_of(columns, row.cells, "Level"@),
            select::cell_of(columns, row.cells, "Comment"@),
            select::cell_of(columns, row.cells, "DisplayName"@),
        ),
        node_id,
        color: select::cell_of(columns, row.cells, "Color"@),
        parent_guid: if section == "Races"@ {
            text::nonempty(select::cell_of(columns, row.cells, "ParentGuid"@))
        } else {
            None
        },
        text_handle: None,
    }
}

fn make_vanilla_entry(section: &str, node_id: &str, columns: &Vec<String>, row: &NamedRow) -> (r:
    VanillaEntryInfo)
    ensures
        r.deep_view() == vanilla_entry(
            section@,
            node_id@,
            columns.deep_view(),
            row.deep_view(),
        ),
{
    let name = or_nothing(get_cell(columns, row, "Name"));
    let level = get_cell(columns, row, "Level");
    let comment = get_cell(columns, row, "Comment");
    let display = get_cell(columns, row, "DisplayName");
    let parent_guid = if text_eq(section, "Races") {
        keep_nonempty(&get_cell(columns, row, "ParentGuid"))
    } else {
        None
    };
    VanillaEntryInfo {
        uuid: row.key.clone(),
        display_name: format_display_name(section, name.as_str(), &level, &comment, &display),
        node_id: owned(node_id),
        color: get_cell(columns, row, "Color"),
        parent_guid,
        text_handle: None,
    }
}

/// The entries of a section, from the rows of its main table. `columns` are the
/// columns that were asked for.
#[verifier::loop_isolation(false)]
pub fn query_vanilla_entries(
    section: &Section,
    node_id: &str,
    columns: &Vec<String>,
    rows: &Vec<NamedRow>,
) -> (r: Vec<VanillaEntryInfo>)
    ensures
        r.deep_view() == Seq::new(
            rows@.len(),
            |i: int|
                vanilla_entry(
                    section.name@,
                    node_id@,
                    columns.deep_view(),
                    rows.deep_view()[i],
                ),
        ),
{
    let ghost all = rows.deep_view();
    let ghost want = Seq::new(
        rows@.len(),
        |i: int| vanilla_entry(section.name@, node_id@, columns.deep_view(), all[i]),
    );
    let mut r: Vec<VanillaEntryInfo> = Vec::new();
    assert(r.deep_view() =~= want.take(0));
    let mut i: usize = 0;
    while i < rows.len()
        invariant
            i <= rows@.len(),
            all == rows.deep_view(),
            r.deep_view() == want.take(i as int),
        decreases rows@.len() - i,
    {
        assert(all[i as int] == rows@[i as int].deep_view());
        let ghost before = r.deep_view();
        let one = make_vanilla_entry(section.name.as_str(), node_id, columns, &rows[i]);
        r.push(one);
        assert(r.deep_view() =~= before.push(one.deep_view()));
        assert(want.take(i + 1) =~= want.take(i as int).push(want[i as int]));
        i += 1;
    }
    assert(want.take(i as int) =~= want);
    r
}

/// The columns that tell how an entry of a folder is shown.
pub open spec fn folder_columns() -> Seq<Seq<char>> {
    seq!["Name"@, "DisplayName"@, "UIColor"@, "Color"@]
}

/// The query for the entries of a folder, and its columns. It fails where the
/// name of the table cannot stand in a statement.
pub fn folder_query(table: &str, columns: &Vec<String>) -> (r: Result<
    (String, Vec<String>),
    String,
>)
    ensures
        match r {
            Ok(q) => {
                let k = select::kept(columns.deep_view(), folder_columns());
                &&& select::valid_table_name(table@)
                &&& q.0@ == select::entries_sql(table@, select::key_among(columns.deep_view()), k)
                &&& q.1.deep_view() == k
            },
            Err(e) => !select::valid_table_name(table@) && e@ == select::table_name_error(table@),
        },
{
    match validate_table_name(table) {
        Ok(_) => {},
        Err(e) => {
            return Err(e);
        },
    }
    let wanted: Vec<&'static str> = vec!["Name", "DisplayName", "UIColor", "Color"];
    assert(wanted.deep_view() =~= folder_columns());
    let kept = keep_columns(columns, &wanted);
    let sql = entries_query(table, find_key(columns), &kept);
    Ok((sql, kept))
}

/// An entry of a folder.
pub open spec fn folder_entry(node_id: Seq<char>, columns: Seq<Seq<char>>, row: NamedModel) -> EntryInfoModel {
    EntryInfoModel {
        uuid: row.key,
        display_name: text::or_empty(
            either(
                select::cell_of(columns, row.cells, "Name"@),
                select::cell_of(columns, row.cells, "DisplayName"@),
            ),
        ),
        node_id,
        color: either(
            select::cell_of(columns, row.cells, "UIColor"@),
            select::cell_of(columns, row.cells, "Color"@),
        ),
        parent_guid: None,
        text_handle: None,
    }
}

/// Whether an entry of the given key is among entries.
pub open spec fn has_entry(entries: Seq<EntryInfoModel>, uuid: Seq<char>) -> bool {
    exists|i: int| 0 <= i < entries.len() && (#[trigger] entries[i]).uuid == uuid
}

/// Entries with one more, unless its key is empty or there already.
pub open spec fn with_entry(entries: Seq<EntryInfoModel>, e: EntryInfoModel) -> Seq<EntryInfoModel> {
    if e.uuid.len() > 0 && !has_entry(entries, e.uuid) {
        entries.push(e)
    } else {
        entries
    }
}

#[verifier::loop_isolation(false)]
fn entry_is_there(entries: &Vec<VanillaEntryInfo>, uuid: &str) -> (r: bool)
    ensures
        r == has_entry(entries.deep_view(), uuid@),
{
    let ghost all = entries.deep_view();
    let mut i: usize = 0;
    while i < entries.len()
        invariant
            i <= entries@.len(),
            all == entries.deep_view(),
            forall|j: int| 0 <= j < i ==> (#[trigger] all[j]).uuid != uuid@,
        decreases entries@.len() - i,
    {
        assert(all[i as int] == entries@[i as int].deep_view());
        if text_eq(entries[i].uuid.as_str(), uuid) {
            return true;
        }
        i += 1;
    }
    false
}

pub fn add_entry(entries: &mut Vec<VanillaEntryInfo>, e: VanillaEntryInfo)
    ensures
        final(entries).deep_view() == with_entry(old(entries).deep_view(), e.deep_view()),
{
    let ghost before = entries.deep_view();
    if !e.uuid.as_str().is_empty() && !entry_is_there(entries, e.uuid.as_str()) {
        entries.push(e);
        assert(entries.deep_view() =~= before.push(e.deep_view()));
    }
}

/// The entries of a folder, each key once.
pub open spec fn folder_entries(
    node_id: Seq<char>,
    columns: Seq<Seq<char>>,
    rows: Seq<NamedModel>,
) -> Seq<EntryInfoModel>
    decreases rows.len(),
{
    if rows.len() == 0 {
        Seq::empty()
    } else {
        with_entry(
            folder_entries(node_id, columns, rows.drop_last()),
            folder_entry(node_id, columns, rows.last()),
        )
    }
}

/// No two entries of a folder have the same key.
pub proof fn law_folder_keys_distinct(
    node_id: Seq<char>,
    columns: Seq<Seq<char>>,
    rows: Seq<NamedModel>,
)
    ensures
        ({
            let r = folder_entries(node_id, columns, rows);
            forall|i: int, j: int|
                0 <= i < j < r.len() ==> (#[trigger] r[i]).uuid != (#[trigger] r[j]).uuid
        }),
    decreases rows.len(),
{
    if rows.len() > 0 {
        law_folder_keys_distinct(node_id, columns, rows.drop_last());
    }
}

/// The entries of a folder, from the rows of its main table, each key once.
#[verifier::loop_isolation(false)]
pub fn query_entries_by_folder(node_id: &str, columns: &Vec<String>, rows: &Vec<NamedRow>) -> (r:
    Vec<VanillaEntryInfo>)
    ensures
        r.deep_view() == folder_entries(node_id@, columns.deep_view(), rows.deep_view()),
{
    let ghost all = rows.deep_view();
    let mut r: Vec<VanillaEntryInfo> = Vec::new();
    assert(r.deep_view() =~= folder_entries(node_id@, columns.deep_view(), all.take(0)));
    let mut i: usize = 0;
    while i < rows.len()
        invariant
            i <= rows@.len(),
            all == rows.deep_view(),
            r.deep_view() == folder_entries(node_id@, columns.deep_view(), all.take(i as int)),
        decreases rows@.len() - i,
    {
        assert(all.take(i + 1).drop_last() =~= all.take(i as int));
        let row = &rows[i];
        assert(all[i as int] == row.deep_view());
        let name = pick_either(get_cell(columns, row, "Name"), get_cell(columns, row, "DisplayName"));
        let color = pick_either(get_cell(columns, row, "UIColor"), get_cell(columns, row, "Color"));
        let one = VanillaEntryInfo {
            uuid: row.key.clone(),
            display_name: or_nothing(name),
            node_id: owned(node_id),
            color,
            parent_guid: None,
            text_handle: None,
        };
        add_entry(&mut r, one);
        i += 1;
    }
    assert(all.take(i as int) =~= all);
    r
}

/// The columns that tell how an entry of a region is shown.
pub open spec fn section_columns() -> Seq<Seq<char>> {
    seq![
        "Name"@,
        "Level"@,
        "Comment"@,
        "DisplayName"@,
        "ParentGuid"@,
        "Color"@,
        "UIColor"@,
        "Text"@,
    ]
}

/// The query for the entries of a region, and its columns. It fails where the
/// name of the table cannot stand in a statement.
pub fn section_query(table: &str, columns: &Vec<String>) -> (r: Result<
    (String, Vec<String>),
    String,
>)
    ensures
        match r {
            Ok(q) => {
                let k = select::kept(columns.deep_view(), section_columns());
                &&& select::valid_table_name(table@)
                &&& q.0@ == select::entries_sql(table@, select::key_among(columns.deep_view()), k)
                    + " LIMIT ?1 OFFSET ?2"@
                &&& q.1.deep_view() == k
            },
            Err(e) => !select::valid_table_name(table@) && e@ == select::table_name_error(table@),
        },
{
    match validate_table_name(table) {
        Ok(_) => {},
        Err(e) => {
            return Err(e);
        },
    }
    let wanted: Vec<&'static str> = vec![
        "Name",
        "Level",
        "Comment",
        "DisplayName",
        "ParentGuid",
        "Color",
        "UIColor",
        "Text",
    ];
    assert(wanted.deep_view() =~= section_columns());
    let kept = keep_columns(columns, &wanted);
    let mut sql = entries_query(table, find_key(columns), &kept);
    sql.append(" LIMIT ?1 OFFSET ?2");
    Ok((sql, kept))
}

/// The best name for an entry: its display name, its name with its level, its
/// comment, or else its key.
pub open spec fn best_name(
    uuid: Seq<char>,
    name: Seq<char>,
    level: Option<Seq<char>>,
    comment: Option<Seq<char>>,
    display: Option<Seq<char>>,
) -> Seq<char> {
    if text::nonempty(display) is Some {
        display->0
    } else if name.len() > 0 {
        match text::nonempty(level) {
            Some(l) => name + " Lv"@ + l,
            None => name,
        }
    } else if text::nonempty(comment) is Some {
        comment->0
    } else {
        uuid
    }
}

/// The handle of a localized text: what stands before the first semicolon.
pub open spec fn handle_part(s: Option<Seq<char>>) -> Option<Seq<char>> {
    match text::nonempty(s) {
        Some(t) => Some(text::pieces(t, ';')[0]),
        None => None,
    }
}

/// An entry of a region.
pub open spec fn section_entry(node_id: Seq<char>, columns: Seq<Seq<char>>, row: NamedModel) -> EntryInfoModel {
    EntryInfoModel {
        uuid: row.key,
        display_name: best_name(
            row.key,
            text::or_empty(select::cell_of(columns, row.cells, "Name"@)),
            select::cell_of(columns, row.cells, "Level"@),
            select::cell_of(columns, row.cells, "Comment"@),
            select::cell_of(columns, row.cells, "DisplayName"@),
        ),
        node_id,
        color: either(
            select::cell_of(columns, row.cells, "UIColor"@),
            select::cell_of(columns, row.cells, "Color"@),
        ),
        parent_guid: text::nonempty(select::cell_of(columns, row.cells, "ParentGuid"@)),
        text_handle: handle_part(select::cell_of(columns, row.cells, "Text"@)),
    }
}

/// The entries of a region, from rows of its main table.
pub open spec fn section_entries(
    node_id: Seq<char>,
    columns: Seq<Seq<char>>,
    rows: Seq<NamedModel>,
) -> Seq<EntryInfoModel> {
    Seq::new(rows.len(), |i: int| section_entry(node_id, columns, rows[i]))
}

/// Where a page of `n` rows begins, of `len` rows in all.
pub open spec fn page_start(len: nat, n: nat, page: nat) -> int {
    if page * n < len {
        (page * n) as int
    } else {
        len as int
    }
}

/// The rows of a page: at most `n`, behind those of the pages before.
pub open spec fn page_rows(rows: Seq<NamedModel>, n: nat, page: nat) -> Seq<NamedModel> {
    rows.subrange(page_start(rows.len(), n, page), page_start(rows.len(), n, page + 1))
}

/// The entries of the first pages, one page after the other.
pub open spec fn paged_entries(
    node_id: Seq<char>,
    columns: Seq<Seq<char>>,
    rows: Seq<NamedModel>,
    n: nat,
    pages: nat,
) -> Seq<EntryInfoModel>
    decreases pages,
{
    if pages == 0 {
        Seq::empty()
    } else {
        paged_entries(node_id, columns, rows, n, (pages - 1) as nat) + section_entries(
            node_id,
            columns,
            page_rows(rows, n, (pages - 1) as nat),
        )
    }
}

proof fn lemma_paged(
    node_id: Seq<char>,
    columns: Seq<Seq<char>>,
    rows: Seq<NamedModel>,
    n: nat,
    pages: nat,
)
    ensures
        paged_entries(node_id, columns, rows, n, pages) == section_entries(
            node_id,
            columns,
            rows.take(page_start(rows.len(), n, pages)),
        ),
    decreases pages,
{
    if pages == 0 {
        assert(pages * n == 0) by (nonlinear_arith)
            requires
                pages == 0,
        ;
        assert(page_start(rows.len(), n, pages) == 0);
        assert(section_entries(node_id, columns, rows.take(0)) =~= Seq::empty());
    } else {
        let before = (pages - 1) as nat;
        lemma_paged(node_id, columns, rows, n, before);
        assert(pages * n == before * n + n) by (nonlinear_arith)
            requires
                pages == before + 1,
        ;
        let a = page_start(rows.len(), n, before);
        let b = page_start(rows.len(), n, pages);
        assert(section_entries(node_id, columns, rows.take(a)) + section_entries(
            node_id,
            columns,
            page_rows(rows, n, before),
        ) =~= section_entries(node_id, columns, rows.take(b)));
    }
}

/// The entries of all pages together are those of the whole table, each once and in
/// order, and no page has more than were asked for.
pub proof fn law_pages_give_all(
    node_id: Seq<char>,
    columns: Seq<Seq<char>>,
    rows: Seq<NamedModel>,
    n: nat,
    pages: nat,
)
    requires
        rows.len() <= pages * n,
    ensures
        paged_entries(node_id, columns, rows, n, pages) == section_entries(node_id, columns, rows),
        forall|k: nat|
            k < pages ==> section_entries(
                node_id,
                columns,
                #[trigger] page_rows(rows, n, k),
            ).len() <= n,
{
    lemma_paged(node_id, columns, rows, n, pages);
    assert(rows.take(rows.len() as int) =~= rows);
    assert forall|k: nat| k < pages implies section_entries(
        node_id,
        columns,
        #[trigger] page_rows(rows, n, k),
    ).len() <= n by {
        assert((k + 1) * n == k * n + n) by (nonlinear_arith);
    }
}

/// The best name for an entry.
pub fn choose_name(
    uuid: &str,
    name: &str,
    level: &Option<String>,
    comment: &Option<String>,
    display: &Option<String>,
) -> (r: String)
    ensures
        r@ == best_name(
            uuid@,
            name@,
            level.deep_view(),
            comment.deep_view(),
            display.deep_view(),
        ),
{
    if let Some(d) = keep_nonempty(display) {
        return d;
    }
    if !name.is_empty() {
        return match keep_nonempty(level) {
            Some(l) => {
                let mut r = glued(name, " Lv");
                r.append(l.as_str());
                r
            },
            None => owned(name),
        };
    }
    match keep_nonempty(comment) {
        Some(c) => c,
        None => owned(uuid),
    }
}

fn take_handle(s: &Option<String>) -> (r: Option<String>)
    ensures
        r.deep_view() == handle_part(s.deep_view()),
{
    match keep_nonempty(s) {
        Some(t) => {
            let parts = split(t.as_str(), ';');
            proof {
                crate::files::lemma_some_piece(t@, ';');
            }
            assert(parts.deep_view()[0] == parts@[0]@);
            Some(parts[0].clone())
        },
        None => None,
    }
}

/// The entries of a region, from the rows of its main table. `columns` are the
/// columns that were asked for. It fails where the database could not be asked.
#[verifier::loop_isolation(false)]
pub fn query_section_entries(
    node_id: &str,
    columns: &Vec<String>,
    rows: Result<Vec<NamedRow>, String>,
) -> (r: Result<Vec<VanillaEntryInfo>, String>)
    ensures
        match rows {
            Ok(found) => r matches Ok(list) && list.deep_view() == section_entries(
                node_id@,
                columns.deep_view(),
                found.deep_view(),
            ),
            Err(e) => r matches Err(f) && f@ == e@,
        },
{
    let rows = match rows {
        Ok(found) => found,
        Err(e) => {
            return Err(e);
        },
    };
    let ghost all = rows.deep_view();
    let ghost want = section_entries(node_id@, columns.deep_view(), all);
    let mut r: Vec<VanillaEntryInfo> = Vec::new();
    assert(r.deep_view() =~= want.take(0));
    let mut i: usize = 0;
    while i < rows.len()
        invariant
            i <= rows@.len(),
            all == rows.deep_view(),
            r.deep_view() == want.take(i as int),
        decreases rows@.len() - i,
    {
        let row = &rows[i];
        assert(all[i as int] == row.deep_view());
        let name = or_nothing(get_cell(columns, row, "Name"));
        let display_name = choose_name(
            row.key.as_str(),
            name.as_str(),
            &get_cell(columns, row, "Level"),
            &get_cell(columns, row, "Comment"),
            &get_cell(columns, row, "DisplayName"),
        );
        let color = pick_either(get_cell(columns, row, "UIColor"), get_cell(columns, row, "Color"));
        let one = VanillaEntryInfo {
            uuid: row.key.clone(),
            display_name,
            node_id: owned(node_id),
            color,
            parent_guid: keep_nonempty(&get_cell(columns, row, "ParentGuid")),
            text_handle: take_handle(&get_cell(columns, row, "Text")),
        };
        let ghost before = r.deep_view();
        r.push(one);
        assert(r.deep_view() =~= before.push(one.deep_view()));
        assert(want.take(i + 1) =~= want.take(i as int).push(want[i as int]));
        i += 1;
    }
    assert(want.take(i as int) =~= want);
    Ok(r)
}

// ---------------------------------------------------------------------------
// Whether there is data
// ---------------------------------------------------------------------------

/// Whether a database has rows: it is there, and counting its filled tables gave
/// more than none.
pub fn has_rows(is_file: bool, count: Option<i64>) -> (r: bool)
    ensures
        r == (is_file && (count matches Some(n) && n > 0)),
{
    is_file && match count {
        Some(n) => n > 0,
        None => false,
    }
}

/// The query that counts the filled tables of a kind.
pub fn filled_tables_query(source_type: &str) -> (r: String)
    ensures
        r@ == "SELECT COUNT(*) FROM _table_meta WHERE source_type = '"@ + source_type@
            + "' AND row_count > 0"@,
{
    let mut s = owned("SELECT COUNT(*) FROM _table_meta WHERE source_type = '");
    s.append(source_type);
    s.append("' AND row_count > 0");
    s
}

/// Whether a database has entries.
pub fn db_has_vanilla_data(is_file: bool, count: Option<i64>) -> (r: bool)
    ensures
        r == (is_file && (count matches Some(n) && n > 0)),
{
    has_rows(is_file, count)
}

/// Whether a database has stats.
pub fn db_has_stats_data(is_file: bool, count: Option<i64>) -> (r: bool)
    ensures
        r == (is_file && (count matches Some(n) && n > 0)),
{
    has_rows(is_file, count)
}

/// Whether a database has localized texts.
pub fn db_has_loca_data(is_file: bool, count: Option<i64>) -> (r: bool)
    ensures
        r == (is_file && (count matches Some(n) && n > 0)),
{
    has_rows(is_file, count)
}

/// Whether a database has equipment sets, given what counting the filled table
/// gave, where the database could be opened.
pub fn db_has_equipment_data(count: Option<i64>) -> (r: bool)
    ensures
        r == (count matches Some(n) && n > 0),
{
    has_rows(true, count)
}

/// Whether a database has value lists, given what counting the filled table
/// gave, where the database could be opened.
pub fn db_has_valuelist_data(count: Option<i64>) -> (r: bool)
    ensures
        r == (count matches Some(n) && n > 0),
{
    has_rows(true, count)
}

// ---------------------------------------------------------------------------
// Stats
// ---------------------------------------------------------------------------

/// The type of the entries of a stats table.
pub open spec fn entry_type_of(table: Seq<char>) -> Seq<char> {
    match text::stripped(table, "stats__"@) {
        Some(rest) => rest,
        None => table,
    }
}

/// The type of the entries of a stats table.
pub fn find_entry_type(table: &str) -> (r: String)
    ensures
        r@ == entry_type_of(table@),
{
    match strip_prefix(table, "stats__") {
        Some(rest) => rest,
        None => owned(table),
    }
}

/// Whether all tables have names that can stand in a statement.
pub open spec fn all_valid(tables: Seq<Seq<char>>) -> bool {
    forall|i: int| 0 <= i < tables.len() ==> select::valid_table_name(#[trigger] tables[i])
}

/// The tables of the asked type, or all filled stats tables.
pub open spec fn tables_asked(entry_type: Seq<char>, filled: Seq<Seq<char>>) -> Seq<Seq<char>> {
    if entry_type.len() == 0 {
        filled
    } else {
        seq!["stats__"@ + entry_type]
    }
}

/// Whether the table at `i` is the first whose name cannot stand in a statement.
pub open spec fn first_invalid(tables: Seq<Seq<char>>, i: int) -> bool {
    &&& 0 <= i < tables.len()
    &&& !select::valid_table_name(tables[i])
    &&& forall|j: int| 0 <= j < i ==> select::valid_table_name(#[trigger] tables[j])
}

/// The tables of the asked type, or all filled stats tables. It fails where a
/// name cannot stand in a statement.
#[verifier::loop_isolation(false)]
pub fn stat_tables(entry_type: &str, filled: &Vec<String>) -> (r: Result<Vec<String>, String>)
    ensures
        match r {
            Ok(t) => {
                let tables = tables_asked(entry_type@, filled.deep_view());
                all_valid(tables) && t.deep_view() == tables
            },
            Err(e) => {
                let tables = tables_asked(entry_type@, filled.deep_view());
                exists|i: int| #[trigger]
                    first_invalid(tables, i) && e@ == select::table_name_error(tables[i])
            },
        },
{
    let tables: Vec<String> = if entry_type.is_empty() {
        copy_list(filled)
    } else {
        let one: Vec<String> = vec![glued("stats__", entry_type)];
        assert(one.deep_view() =~= tables_asked(entry_type@, filled.deep_view()));
        one
    };
    let ghost all = tables.deep_view();
    assert(all =~= tables_asked(entry_type@, filled.deep_view()));
    let mut i: usize = 0;
    while i < tables.len()
        invariant
            i <= tables@.len(),
            all == tables.deep_view(),
            forall|j: int| 0 <= j < i ==> select::valid_table_name(#[trigger] all[j]),
        decreases tables@.len() - i,
    {
        assert(all[i as int] == tables@[i as int]@);
        match validate_table_name(tables[i].as_str()) {
            Ok(_) => {},
            Err(e) => {
                assert(first_invalid(all, i as int));
                return Err(e);
            },
        }
        i += 1;
    }
    Ok(tables)
}

/// A stats entry in a list.
#[derive(Debug)]
pub struct StatEntryInfo {
    pub name: String,
    pub entry_type: String,
}

/// What a stats entry in a list says.
pub struct StatInfoModel {
    pub name: Seq<char>,
    pub entry_type: Seq<char>,
}

impl DeepView for StatEntryInfo {
    type V = StatInfoModel;

    open spec fn deep_view(&self) -> StatInfoModel {
        StatInfoModel { name: self.name@, entry_type: self.entry_type@ }
    }
}

/// Stats entries by name.
impl Ranked for StatEntryInfo {
    open spec fn ranks_before(a: StatInfoModel, b: StatInfoModel) -> bool {
        order::text_lt(a.name, b.name)
    }

    fn goes_before(&self, other: &Self) -> (r: bool) {
        text_before(self.name.as_str(), other.name.as_str())
    }
}

/// The entries of stats tables, table by table.
pub open spec fn stat_infos(tables: Seq<(Seq<char>, Seq<Seq<char>>)>) -> Seq<StatInfoModel>
    decreases tables.len(),
{
    if tables.len() == 0 {
        Seq::empty()
    } else {
        let t = tables.last();
        stat_infos(tables.drop_last()) + Seq::new(
            t.1.len(),
            |i: int| StatInfoModel { name: t.1[i], entry_type: entry_type_of(t.0) },
        )
    }
}

#[verifier::loop_isolation(false)]
fn add_stat_infos(out: &mut Vec<StatEntryInfo>, table: &str, names: &Vec<String>)
    ensures
        final(out).deep_view() == old(out).deep_view() + Seq::new(
            names@.len(),
            |i: int|
                StatInfoModel { name: names.deep_view()[i], entry_type: entry_type_of(table@) },
        ),
{
    let ghost start = out.deep_view();
    let ghost all = names.deep_view();
    let ghost want = Seq::new(
        names@.len(),
        |i: int| StatInfoModel { name: all[i], entry_type: entry_type_of(table@) },
    );
    assert(start + want.take(0) =~= start);
    let mut i: usize = 0;
    while i < names.len()
        invariant
            i <= names@.len(),
            all == names.deep_view(),
            out.deep_view() == start + want.take(i as int),
        decreases names@.len() - i,
    {
        assert(all[i as int] == names@[i as int]@);
        let one = StatEntryInfo { name: names[i].clone(), entry_type: find_entry_type(table) };
        let ghost before = out.deep_view();
        out.push(one);
        assert(out.deep_view() =~= before.push(one.deep_view()));
        assert(want.take(i + 1) =~= want.take(i as int).push(want[i as int]));
        assert(out.deep_view() =~= start + want.take(i + 1));
        i += 1;
    }
    assert(want.take(i as int) =~= want);
}

/// The entries of stats tables by name, given the names in each table.
#[verifier::loop_isolation(false)]
pub fn query_stat_entries(tables: &Vec<(String, Vec<String>)>) -> (r: Vec<StatEntryInfo>)
    ensures
        r.deep_view() == order::stable_sort(
            stat_infos(tables.deep_view()),
            order::rank::<StatEntryInfo>(),
        ),
{
    let ghost all = tables.deep_view();
    let mut r: Vec<StatEntryInfo> = Vec::new();
    assert(r.deep_view() =~= stat_infos(all.take(0)));
    let mut i: usize = 0;
    while i < tables.len()
        invariant
            i <= tables@.len(),
            all == tables.deep_view(),
            r.deep_view() == stat_infos(all.take(i as int)),
        decreases tables@.len() - i,
    {
        assert(all.take(i + 1).drop_last() =~= all.take(i as int));
        let t = &tables[i];
        assert(all[i as int] == (t.0@, t.1.deep_view()));
        assert(t.1.deep_view().len() == t.1@.len());
        add_stat_infos(&mut r, t.0.as_str(), &t.1);
        i += 1;
    }
    assert(all.take(i as int) =~= all);
    sort_ranked(r)
}

/// Whether a column of a stats table is not a field of entries.
pub open spec fn internal_column(name: Seq<char>) -> bool {
    name == "_entry_name"@ || name == "_file_id"@ || name == "_type"@ || name == "_using"@
        || "_version"@.is_suffix_of(name)
}

/// Whether a column of a stats table is not a field of entries.
pub fn is_internal_column(name: &str) -> (r: bool)
    ensures
        r == internal_column(name@),
{
    text_eq(name, "_entry_name") || text_eq(name, "_file_id") || text_eq(name, "_type")
        || text_eq(name, "_using") || ends_with(name, "_version")
}

/// The fields among columns, each once.
pub open spec fn fields_among(known: Seq<Seq<char>>, columns: Seq<Seq<char>>) -> Seq<Seq<char>>
    decreases columns.len(),
{
    if columns.len() == 0 {
        known
    } else {
        let before = fields_among(known, columns.drop_last());
        if internal_column(columns.last()) {
            before
        } else {
            textmap::with_member(before, columns.last())
        }
    }
}

/// The fields of tables, each once.
pub open spec fn fields_of(tables: Seq<Seq<Seq<char>>>) -> Seq<Seq<char>>
    decreases tables.len(),
{
    if tables.len() == 0 {
        Seq::empty()
    } else {
        fields_among(fields_of(tables.drop_last()), tables.last())
    }
}

#[verifier::loop_isolation(false)]
fn add_fields(known: &mut Vec<String>, columns: &Vec<String>)
    ensures
        final(known).deep_view() == fields_among(old(known).deep_view(), columns.deep_view()),
{
    let ghost start = known.deep_view();
    let ghost all = columns.deep_view();
    let mut i: usize = 0;
    while i < columns.len()
        invariant
            i <= columns@.len(),
            all == columns.deep_view(),
            known.deep_view() == fields_among(start, all.take(i as int)),
        decreases columns@.len() - i,
    {
        assert(all.take(i + 1).drop_last() =~= all.take(i as int));
        assert(all[i as int] == columns@[i as int]@);
        if !is_internal_column(columns[i].as_str()) {
            add_member(known, columns[i].as_str());
        }
        i += 1;
    }
    assert(all.take(i as int) =~= all);
}

/// The fields of stats entries in order, each once, given the columns of each
/// table.
#[verifier::loop_isolation(false)]
pub fn query_stat_field_names(tables: &Vec<Vec<String>>) -> (r: Vec<String>)
    ensures
        r.deep_view() == order::stable_sort(
            fields_of(tables.deep_view()),
            order::rank::<String>(),
        ),
{
    let ghost all = tables.deep_view();
    let mut r: Vec<String> = Vec::new();
    assert(r.deep_view() =~= fields_of(all.take(0)));
    let mut i: usize = 0;
    while i < tables.len()
        invariant
            i <= tables@.len(),
            all == tables.deep_view(),
            r.deep_view() == fields_of(all.take(i as int)),
        decreases tables@.len() - i,
    {
        assert(all.take(i + 1).drop_last() =~= all.take(i as int));
        assert(all[i as int] == tables@[i as int].deep_view());
        add_fields(&mut r, &tables[i]);
        i += 1;
    }
    assert(all.take(i as int) =~= all);
    sort_ranked(r)
}

/// The query for a stats entry.
pub fn stat_entry_query(table: &str, columns: &Vec<String>) -> (r: String)
    ensures
        r@ == select::all_columns_sql(table@, columns.deep_view())
            + " WHERE \"_entry_name\" = ?1 LIMIT 1"@,
{
    let mut s = select::all_columns_query(table, columns);
    s.append(" WHERE \"_entry_name\" = ?1 LIMIT 1");
    s
}

/// The fields of an entry: the columns that hold something.
pub open spec fn entry_fields(columns: Seq<Seq<char>>, cells: Seq<CellModel>, n: int) -> Seq<
    (Seq<char>, Seq<char>),
>
    decreases n,
{
    if n <= 0 {
        Seq::empty()
    } else {
        let before = entry_fields(columns, cells, n - 1);
        match select::cell_text(cells[n - 1]) {
            Some(v) => if internal_column(columns[n - 1]) {
                before
            } else {
                textmap::with_value(before, columns[n - 1], v)
            },
            None => before,
        }
    }
}

/// The fields of a stats entry, from its row. There are none where there is no
/// such entry.
#[verifier::loop_isolation(false)]
pub fn query_stat_entry_fields(columns: &Vec<String>, row: &Option<Vec<Cell>>) -> (r: TextMap<String>)
    requires
        row matches Some(cells) ==> cells@.len() == columns@.len(),
    ensures
        r.deep_view() == (match row {
            Some(cells) => entry_fields(
                columns.deep_view(),
                cells.deep_view(),
                columns@.len() as int,
            ),
            None => Seq::empty(),
        }),
{
    let mut r: TextMap<String> = TextMap::new();
    let cells = match row {
        Some(c) => c,
        None => {
            return r;
        },
    };
    let ghost cm = columns.deep_view();
    let ghost vm = cells.deep_view();
    let mut i: usize = 0;
    while i < columns.len()
        invariant
            i <= columns@.len(),
            cells@.len() == columns@.len(),
            cm == columns.deep_view(),
            vm == cells.deep_view(),
            r.deep_view() == entry_fields(cm, vm, i as int),
        decreases columns@.len() - i,
    {
        assert(cm[i as int] == columns@[i as int]@);
        assert(vm[i as int] == cells@[i as int].deep_view());
        if !is_internal_column(columns[i].as_str()) {
            match text_of_cell(&cells[i]) {
                Some(v) => r.insert(columns[i].clone(), v),
                None => {},
            }
        }
        i += 1;
    }
    r
}

} // verus!
