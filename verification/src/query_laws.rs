//! What holds of the answers to queries.

use vstd::prelude::*;
use crate::discovery_laws;
use crate::files;
use crate::list_laws;
use crate::lookups;
use crate::lookups::{AtlasModel, CostRowsModel, ListModel, RankedCost, RankedCostModel};
use crate::order;
use crate::queries;
use crate::queries::{EntryInfoModel, StatInfoModel};
use crate::select;
use crate::select::{CellModel, NamedModel};
use crate::scan_laws;
use crate::text;
use crate::textmap;

verus! {

// ---------------------------------------------------------------------------
// Names
// ---------------------------------------------------------------------------

/// What a row holds in a column, where that is not empty.
pub open spec fn filled(
    columns: Seq<Seq<char>>,
    row: NamedModel,
    name: Seq<char>,
) -> Option<Seq<char>> {
    match select::cell_of(columns, row.cells, name) {
        Some(s) => if s.len() > 0 {
            Some(s)
        } else {
            None
        },
        None => None,
    }
}

/// An entry of a region is shown by its display name, else by its name and its level, else
/// by its comment, else by its key.
pub proof fn law_section_entry_is_named(
    node_id: Seq<char>,
    columns: Seq<Seq<char>>,
    row: NamedModel,
)
    ensures
        ({
            let e = queries::section_entry(node_id, columns, row);
            let display = filled(columns, row, "DisplayName"@);
            let name = filled(columns, row, "Name"@);
            let level = filled(columns, row, "Level"@);
            let comment = filled(columns, row, "Comment"@);
            let hue = select::cell_of(columns, row.cells, "UIColor"@);
            &&& e.uuid == row.key
            &&& e.node_id == node_id
            &&& display is Some ==> e.display_name == display->0
            &&& display is None && name is Some && level is Some ==> e.display_name == name->0
                + " Lv"@ + level->0
            &&& display is None && name is Some && level is None ==> e.display_name == name->0
            &&& display is None && name is None && comment is Some ==> e.display_name == comment->0
            &&& display is None && name is None && comment is None ==> e.display_name == row.key
            &&& hue is Some ==> e.color == hue
            &&& hue is None ==> e.color == select::cell_of(columns, row.cells, "Color"@)
            &&& e.parent_guid == filled(columns, row, "ParentGuid"@)
            &&& filled(columns, row, "Text"@) is None ==> e.text_handle is None
            &&& filled(columns, row, "Text"@) matches Some(t) ==> (e.text_handle matches Some(h)
                && h == t.take(text::char_at_or_end(t, ';', 0)))
        }),
{
    let t = filled(columns, row, "Text"@);
    if t is Some {
        text::lemma_char_at_or_end(t->0, ';', 0);
        assert(t->0.take(t->0.len() as int) =~= t->0);
    }
}

/// An entry of a section is shown as the section has it: a progression by its name and its
/// level, a list by its comment, a background or an origin by its display name, and any
/// other by its name.
pub proof fn law_entry_is_named_by_section(
    section: Seq<char>,
    node_id: Seq<char>,
    columns: Seq<Seq<char>>,
    row: NamedModel,
)
    ensures
        ({
            let e = queries::vanilla_entry(section, node_id, columns, row);
            let name = text::or_empty(select::cell_of(columns, row.cells, "Name"@));
            let level = select::cell_of(columns, row.cells, "Level"@);
            let comment = text::or_empty(select::cell_of(columns, row.cells, "Comment"@));
            let display = filled(columns, row, "DisplayName"@);
            let displays = section == "Backgrounds"@ || section == "Origins"@;
            &&& e.uuid == row.key
            &&& e.node_id == node_id
            &&& e.color == select::cell_of(columns, row.cells, "Color"@)
            &&& section == "Progressions"@ && level is Some ==> e.display_name == name + " Lv"@
                + level->0
            &&& section == "Progressions"@ && level is None ==> e.display_name == name + " Lv"@
                + "?"@
            &&& section == "Lists"@ ==> e.display_name == comment
            &&& displays && display is Some ==> e.display_name == display->0
            &&& displays && display is None ==> e.display_name == name
            &&& section != "Progressions"@ && section != "Lists"@ && !displays ==> e.display_name
                == name
            &&& section == "Races"@ ==> e.parent_guid == filled(columns, row, "ParentGuid"@)
            &&& section != "Races"@ ==> e.parent_guid is None
        }),
{
    reveal_strlit("Progressions");
    reveal_strlit("Lists");
    reveal_strlit("Backgrounds");
    reveal_strlit("Origins");
    assert("Progressions"@.len() == 12);
    assert("Lists"@.len() == 5);
    assert("Backgrounds"@.len() == 11);
    assert("Origins"@.len() == 7);
}

/// A row holds in a column what stands in the first place of that name.
pub proof fn law_cell_is_that_of_column(
    columns: Seq<Seq<char>>,
    cells: Seq<Option<Seq<char>>>,
    i: int,
)
    requires
        0 <= i < columns.len(),
        i < cells.len(),
        forall|j: int| 0 <= j < i ==> #[trigger] columns[j] != columns[i],
    ensures
        select::cell_of(columns, cells, columns[i]) == cells[i],
{
    lemma_place(columns, columns[i], 0, i);
}

proof fn lemma_place(list: Seq<Seq<char>>, key: Seq<char>, from: int, at: int)
    requires
        0 <= from <= at < list.len(),
        list[at] == key,
        forall|j: int| from <= j < at ==> #[trigger] list[j] != key,
    ensures
        files::place_in(list, key, from) == at,
    decreases at - from,
{
    if from < at {
        lemma_place(list, key, from + 1, at);
    }
}

// ---------------------------------------------------------------------------
// Entries, each once
// ---------------------------------------------------------------------------

/// Whether entries are those of which the first of each key counts, with the empty key left
/// out.
pub open spec fn are_firsts(all: Seq<EntryInfoModel>, r: Seq<EntryInfoModel>) -> bool {
    &&& forall|i: int|
        0 <= i < all.len() && (#[trigger] all[i]).uuid.len() > 0 && is_first(all, i)
            ==> r.contains(all[i])
    &&& forall|k: int| 0 <= k < r.len() ==> is_a_first(all, #[trigger] r[k])
    &&& forall|k: int, l: int|
        0 <= k < l < r.len() ==> (#[trigger] r[k]).uuid != (#[trigger] r[l]).uuid
}

/// Whether no earlier entry has the same key.
pub open spec fn is_first(all: Seq<EntryInfoModel>, i: int) -> bool {
    forall|j: int| 0 <= j < i ==> (#[trigger] all[j]).uuid != all[i].uuid
}

/// Whether an entry is the first of its key.
pub open spec fn is_a_first(all: Seq<EntryInfoModel>, e: EntryInfoModel) -> bool {
    e.uuid.len() > 0 && exists|i: int|
        0 <= i < all.len() && #[trigger] all[i] == e && is_first(all, i)
}

proof fn lemma_firsts(all: Seq<EntryInfoModel>, r: Seq<EntryInfoModel>, e: EntryInfoModel)
    requires
        are_firsts(all, r),
    ensures
        are_firsts(all.push(e), queries::with_entry(r, e)),
{
    let more = all.push(e);
    let n = all.len() as int;
    let s = queries::with_entry(r, e);
    assert forall|i: int| 0 <= i < n implies is_first(more, i) == #[trigger] is_first(all, i) by {
        if is_first(all, i) {
            assert forall|j: int| 0 <= j < i implies (#[trigger] more[j]).uuid != more[i].uuid by {
                assert(more[j] == all[j]);
            }
        }
        if is_first(more, i) {
            assert forall|j: int| 0 <= j < i implies (#[trigger] all[j]).uuid != all[i].uuid by {
                assert(more[j] == all[j]);
            }
        }
    }
    assert(queries::has_entry(r, e.uuid) ==> !is_first(more, n)) by {
        if queries::has_entry(r, e.uuid) {
            let k = choose|k: int| 0 <= k < r.len() && (#[trigger] r[k]).uuid == e.uuid;
            assert(is_a_first(all, r[k]));
            let i = choose|i: int|
                0 <= i < all.len() && #[trigger] all[i] == r[k] && is_first(all, i);
            assert(more[i] == all[i]);
        }
    }
    assert(!queries::has_entry(r, e.uuid) && e.uuid.len() > 0 ==> is_first(more, n)) by {
        if !queries::has_entry(r, e.uuid) && e.uuid.len() > 0 {
            assert forall|j: int| 0 <= j < n implies (#[trigger] more[j]).uuid != e.uuid by {
                if more[j].uuid == e.uuid {
                    lemma_some_first(all, j);
                    let i = choose|i: int|
                        0 <= i <= j && (#[trigger] all[i]).uuid == e.uuid && is_first(all, i);
                    assert(r.contains(all[i]));
                    let k = choose|k: int| 0 <= k < r.len() && r[k] == all[i];
                    assert(r[k].uuid == e.uuid);
                }
            }
        }
    }
    assert forall|i: int|
        0 <= i < more.len() && (#[trigger] more[i]).uuid.len() > 0 && is_first(
            more,
            i,
        ) implies s.contains(more[i]) by {
        if i < n {
            assert(more[i] == all[i]);
            assert(is_first(all, i));
            let k = choose|k: int| 0 <= k < r.len() && r[k] == all[i];
            assert(s[k] == all[i]);
        } else {
            assert(s[r.len() as int] == e);
        }
    }
    assert forall|k: int| 0 <= k < s.len() implies is_a_first(more, #[trigger] s[k]) by {
        if k < r.len() {
            assert(is_a_first(all, r[k]));
            let i = choose|i: int|
                0 <= i < all.len() && #[trigger] all[i] == r[k] && is_first(all, i);
            assert(more[i] == s[k]);
            assert(is_first(more, i));
        } else {
            assert(more[n] == e);
        }
    }
    assert forall|k: int, l: int| 0 <= k < l < s.len() implies (#[trigger] s[k]).uuid
        != (#[trigger] s[l]).uuid by {
        if l == r.len() {
            assert(s[k] == r[k]);
        }
    }
}

proof fn lemma_some_first(all: Seq<EntryInfoModel>, j: int)
    requires
        0 <= j < all.len(),
    ensures
        exists|i: int| 0 <= i <= j && (#[trigger] all[i]).uuid == all[j].uuid && is_first(all, i),
    decreases j,
{
    if is_first(all, j) {
        assert(all[j].uuid == all[j].uuid);
    } else {
        let i = choose|i: int| 0 <= i < j && (#[trigger] all[i]).uuid == all[j].uuid;
        lemma_some_first(all, i);
    }
}

/// The entries of a folder are those of its rows, the first of each key.
pub proof fn law_folder_holds_all(
    node_id: Seq<char>,
    columns: Seq<Seq<char>>,
    rows: Seq<NamedModel>,
)
    ensures
        are_firsts(
            rows.map_values(|row: NamedModel| queries::folder_entry(node_id, columns, row)),
            queries::folder_entries(node_id, columns, rows),
        ),
    decreases rows.len(),
{
    let f = |row: NamedModel| queries::folder_entry(node_id, columns, row);
    if rows.len() > 0 {
        let d = rows.drop_last();
        law_folder_holds_all(node_id, columns, d);
        lemma_firsts(d.map_values(f), queries::folder_entries(node_id, columns, d), f(rows.last()));
        assert(rows.map_values(f) =~= d.map_values(f).push(f(rows.last())));
    }
}

/// An entry of a folder is shown by its name, or else by its display name.
pub proof fn law_folder_entry_is_named(
    node_id: Seq<char>,
    columns: Seq<Seq<char>>,
    row: NamedModel,
)
    ensures
        ({
            let e = queries::folder_entry(node_id, columns, row);
            let name = select::cell_of(columns, row.cells, "Name"@);
            let display = select::cell_of(columns, row.cells, "DisplayName"@);
            let hue = select::cell_of(columns, row.cells, "UIColor"@);
            &&& e.uuid == row.key
            &&& e.node_id == node_id
            &&& name is Some ==> e.display_name == name->0
            &&& name is None && display is Some ==> e.display_name == display->0
            &&& name is None && display is None ==> e.display_name.len() == 0
            &&& hue is Some ==> e.color == hue
            &&& hue is None ==> e.color == select::cell_of(columns, row.cells, "Color"@)
        }),
{
}

/// The voice tables are those that the rows name, the first of each key.
pub proof fn law_voices_hold_all(columns: Seq<Seq<char>>, rows: Seq<NamedModel>)
    ensures
        are_firsts(
            rows.map_values(|row: NamedModel| lookups::voice_entry(columns, row)),
            lookups::voices_of(columns, rows),
        ),
    decreases rows.len(),
{
    let f = |row: NamedModel| lookups::voice_entry(columns, row);
    if rows.len() > 0 {
        let d = rows.drop_last();
        law_voices_hold_all(columns, d);
        lemma_firsts(d.map_values(f), lookups::voices_of(columns, d), f(rows.last()));
        assert(rows.map_values(f) =~= d.map_values(f).push(f(rows.last())));
    }
}

/// A voice table is known by the key in its own column, or else by that of the row, and is
/// shown by its name, or else by its display name.
pub proof fn law_voice_is_named(columns: Seq<Seq<char>>, row: NamedModel)
    ensures
        ({
            let e = lookups::voice_entry(columns, row);
            let own = filled(columns, row, "TableUUID"@);
            let name = select::cell_of(columns, row.cells, "Name"@);
            let display = select::cell_of(columns, row.cells, "DisplayName"@);
            &&& own is Some ==> e.uuid == own->0
            &&& own is None ==> e.uuid == row.key
            &&& name is Some ==> e.display_name == name->0
            &&& name is None && display is Some ==> e.display_name == display->0
            &&& e.node_id == "VoiceTable"@
        }),
{
}

/// The progression tables that rows of regions name, one after another.
pub open spec fn all_progressions(
    regions: Seq<(Seq<char>, Seq<(Seq<char>, Seq<char>)>)>,
) -> Seq<EntryInfoModel>
    decreases regions.len(),
{
    if regions.len() == 0 {
        Seq::empty()
    } else {
        all_progressions(regions.drop_last()) + regions.last().1.map_values(
            |p: (Seq<char>, Seq<char>)|
                lookups::progression_entry(regions.last().0, p.0, p.1),
        )
    }
}

proof fn lemma_progressions(
    all: Seq<EntryInfoModel>,
    known: Seq<EntryInfoModel>,
    region: Seq<char>,
    rows: Seq<(Seq<char>, Seq<char>)>,
)
    requires
        are_firsts(all, known),
    ensures
        are_firsts(
            all + rows.map_values(
                |p: (Seq<char>, Seq<char>)| lookups::progression_entry(region, p.0, p.1),
            ),
            lookups::with_progressions(known, region, rows),
        ),
    decreases rows.len(),
{
    let f = |p: (Seq<char>, Seq<char>)| lookups::progression_entry(region, p.0, p.1);
    if rows.len() > 0 {
        let d = rows.drop_last();
        lemma_progressions(all, known, region, d);
        lemma_firsts(
            all + d.map_values(f),
            lookups::with_progressions(known, region, d),
            f(rows.last()),
        );
        assert(all + rows.map_values(f) =~= (all + d.map_values(f)).push(f(rows.last())));
    } else {
        assert(all + rows.map_values(f) =~= all);
    }
}

/// The progression tables are those that the regions name, the first of each key. Each is
/// shown by its name, which tells a race, or else by its key.
pub proof fn law_progressions_hold_all(
    regions: Seq<(Seq<char>, Seq<(Seq<char>, Seq<char>)>)>,
    region: Seq<char>,
    uuid: Seq<char>,
    name: Seq<char>,
)
    ensures
        are_firsts(all_progressions(regions), lookups::progressions_of(regions)),
        ({
            let e = lookups::progression_entry(region, uuid, name);
            &&& e.uuid == uuid
            &&& e.node_id == "ProgressionTable"@
            &&& name.len() == 0 ==> e.display_name == uuid
            &&& name.len() > 0 && region == "Races"@ ==> e.display_name == name + " (Race)"@
            &&& name.len() > 0 && region != "Races"@ ==> e.display_name == name
        }),
    decreases regions.len(),
{
    assert(name + Seq::<char>::empty() =~= name);
    if regions.len() > 0 {
        let d = regions.drop_last();
        law_progressions_hold_all(d, region, uuid, name);
        lemma_progressions(
            all_progressions(d),
            lookups::progressions_of(d),
            regions.last().0,
            regions.last().1,
        );
    }
}

// ---------------------------------------------------------------------------
// Fields and names, each once
// ---------------------------------------------------------------------------

/// Whether a text stands in one of several lists.
pub open spec fn stands_in(lists: Seq<Seq<Seq<char>>>, x: Seq<char>) -> bool {
    exists|i: int| 0 <= i < lists.len() && (#[trigger] lists[i]).contains(x)
}

proof fn lemma_one_more(list: Seq<Seq<char>>, x: Seq<char>)
    ensures
        forall|y: Seq<char>| #[trigger]
            textmap::with_member(list, x).contains(y) <==> list.contains(y) || y == x,
        list.no_duplicates() ==> textmap::with_member(list, x).no_duplicates(),
{
    let r = textmap::with_member(list, x);
    assert forall|y: Seq<char>| #[trigger] r.contains(y) <==> list.contains(y) || y == x by {
        if list.contains(y) {
            let i = choose|i: int| 0 <= i < list.len() && list[i] == y;
            assert(r[i] == y);
        }
        if y == x && !list.contains(x) {
            assert(r[list.len() as int] == x);
        }
        if r.contains(y) && y != x {
            let i = choose|i: int| 0 <= i < r.len() && r[i] == y;
            assert(list[i] == y);
        }
    }
    if list.no_duplicates() && !list.contains(x) {
        assert forall|i: int, j: int| 0 <= i < r.len() && 0 <= j < r.len() && i != j implies r[i]
            != r[j] by {
            if i < list.len() && j < list.len() {
                assert(list[i] != list[j]);
            }
        }
    }
}

proof fn lemma_fields(known: Seq<Seq<char>>, columns: Seq<Seq<char>>)
    ensures
        forall|x: Seq<char>| #[trigger]
            queries::fields_among(known, columns).contains(x) <==> known.contains(x) || (
            columns.contains(x) && !queries::internal_column(x)),
        known.no_duplicates() ==> queries::fields_among(known, columns).no_duplicates(),
    decreases columns.len(),
{
    if columns.len() > 0 {
        let d = columns.drop_last();
        let before = queries::fields_among(known, d);
        let r = queries::fields_among(known, columns);
        lemma_fields(known, d);
        lemma_one_more(before, columns.last());
        assert forall|x: Seq<char>| #[trigger] r.contains(x) <==> known.contains(x) || (
        columns.contains(x) && !queries::internal_column(x)) by {
            if columns.contains(x) {
                let i = choose|i: int| 0 <= i < columns.len() && columns[i] == x;
                if i < d.len() {
                    assert(d[i] == x);
                }
            }
            if d.contains(x) {
                let i = choose|i: int| 0 <= i < d.len() && d[i] == x;
                assert(columns[i] == x);
            }
            assert(columns[columns.len() - 1] == columns.last());
            assert(before.contains(x) <==> known.contains(x) || (d.contains(x)
                && !queries::internal_column(x)));
        }
    }
}

/// The fields of stats tables are those of their columns that are neither kept for the
/// tables themselves nor versions of localized texts, each once.
pub proof fn law_fields_are_columns(tables: Seq<Seq<Seq<char>>>, x: Seq<char>)
    ensures
        queries::fields_of(tables).contains(x) <==> stands_in(tables, x) && x != "_entry_name"@ && x
            != "_file_id"@ && x != "_type"@ && x != "_using"@ && !"_version"@.is_suffix_of(x),
        queries::fields_of(tables).no_duplicates(),
    decreases tables.len(),
{
    if tables.len() > 0 {
        let d = tables.drop_last();
        law_fields_are_columns(d, x);
        lemma_fields(queries::fields_of(d), tables.last());
        lemma_stands(tables, x);
    }
}

proof fn lemma_stands(tables: Seq<Seq<Seq<char>>>, x: Seq<char>)
    requires
        tables.len() > 0,
    ensures
        stands_in(tables, x) <==> stands_in(tables.drop_last(), x) || tables.last().contains(x),
{
    let d = tables.drop_last();
    assert(tables[tables.len() - 1] == tables.last());
    if stands_in(d, x) {
        let i = choose|i: int| 0 <= i < d.len() && (#[trigger] d[i]).contains(x);
        assert(tables[i] == d[i]);
    }
    if stands_in(tables, x) {
        let i = choose|i: int| 0 <= i < tables.len() && (#[trigger] tables[i]).contains(x);
        if i < d.len() {
            assert(d[i] == tables[i]);
        }
    }
}

proof fn lemma_names(known: Seq<Seq<char>>, names: Seq<Seq<char>>)
    ensures
        forall|x: Seq<char>| #[trigger]
            lookups::with_names(known, names).contains(x) <==> known.contains(x) || names.contains(
                x,
            ),
        known.no_duplicates() ==> lookups::with_names(known, names).no_duplicates(),
    decreases names.len(),
{
    if names.len() > 0 {
        let d = names.drop_last();
        let before = lookups::with_names(known, d);
        let r = lookups::with_names(known, names);
        lemma_names(known, d);
        lemma_one_more(before, names.last());
        assert forall|x: Seq<char>| #[trigger] r.contains(x) <==> known.contains(x)
            || names.contains(x) by {
            assert(before.contains(x) <==> known.contains(x) || d.contains(x));
            if names.contains(x) {
                let i = choose|i: int| 0 <= i < names.len() && names[i] == x;
                if i < d.len() {
                    assert(d[i] == x);
                }
            }
            if d.contains(x) {
                let i = choose|i: int| 0 <= i < d.len() && d[i] == x;
                assert(names[i] == x);
            }
            assert(names[names.len() - 1] == names.last());
        }
    }
}

/// The names of icons are those that the tables hold, each once.
pub proof fn law_icon_names_hold_all(tables: Seq<Seq<Seq<char>>>, x: Seq<char>)
    ensures
        lookups::names_of(tables).contains(x) <==> stands_in(tables, x),
        lookups::names_of(tables).no_duplicates(),
    decreases tables.len(),
{
    if tables.len() > 0 {
        law_icon_names_hold_all(tables.drop_last(), x);
        lemma_names(lookups::names_of(tables.drop_last()), tables.last());
        lemma_stands(tables, x);
    }
}

proof fn lemma_entry_fields(
    columns: Seq<Seq<char>>,
    cells: Seq<CellModel>,
    n: int,
    c: Seq<char>,
)
    requires
        0 <= n <= columns.len(),
        scan_laws::no_doubles(columns),
    ensures
        ({
            let r = queries::entry_fields(columns, cells, n);
            &&& forall|i: int|
                0 <= i < n && #[trigger] columns[i] == c ==> textmap::value_of(r, c)
                    == if queries::internal_column(c) {
                    None
                } else {
                    select::cell_text(cells[i])
                }
            &&& (forall|i: int| 0 <= i < n ==> #[trigger] columns[i] != c) ==> !textmap::has_key(r, c)
        }),
    decreases n,
{
    if n > 0 {
        lemma_entry_fields(columns, cells, n - 1, c);
        let before = queries::entry_fields(columns, cells, n - 1);
        let v = select::cell_text(cells[n - 1]);
        if v is Some {
            discovery_laws::lemma_set(before, columns[n - 1], v->0, c);
        }
        if columns[n - 1] == c {
            assert forall|i: int| 0 <= i < n - 1 implies #[trigger] columns[i] != c by {}
        }
    } else {
        textmap::lemma_key_pos(queries::entry_fields(columns, cells, 0), c);
    }
}

/// The fields of a stats entry are what its row holds in the columns that are fields.
pub proof fn law_entry_fields_are_cells(columns: Seq<Seq<char>>, cells: Seq<CellModel>, i: int)
    requires
        scan_laws::no_doubles(columns),
        0 <= i < columns.len(),
    ensures
        textmap::value_of(
            queries::entry_fields(columns, cells, columns.len() as int),
            columns[i],
        ) == if queries::internal_column(columns[i]) {
            None
        } else {
            select::cell_text(cells[i])
        },
{
    lemma_entry_fields(columns, cells, columns.len() as int, columns[i]);
}

/// The entries of stats tables are all their names, each with the type of its table.
pub proof fn law_stat_entries_hold_all(
    tables: Seq<(Seq<char>, Seq<Seq<char>>)>,
    i: int,
    k: int,
    ty: Seq<char>,
)
    requires
        0 <= i < tables.len(),
        0 <= k < tables[i].1.len(),
        tables[i].0 == "stats__"@ + ty,
    ensures
        queries::stat_infos(tables).contains(
            StatInfoModel { name: tables[i].1[k], entry_type: ty },
        ),
    decreases tables.len(),
{
    let d = tables.drop_last();
    let before = queries::stat_infos(d);
    let r = queries::stat_infos(tables);
    let e = StatInfoModel { name: tables[i].1[k], entry_type: ty };
    if i < d.len() {
        assert(d[i] == tables[i]);
        law_stat_entries_hold_all(d, i, k, ty);
        let at = choose|at: int| 0 <= at < before.len() && before[at] == e;
        assert(r[at] == e);
    } else {
        let t = tables[i].0;
        let w = "stats__"@;
        assert(w =~= t.subrange(0, w.len() as int));
        assert(t.skip(w.len() as int) =~= ty);
        assert(r[before.len() + k] == e);
    }
}

// ---------------------------------------------------------------------------
// Icons, lists and resources
// ---------------------------------------------------------------------------

proof fn lemma_path(paths: Seq<(i64, Seq<char>)>, file: i64, from: int, at: int)
    requires
        0 <= from <= at < paths.len(),
        paths[at].0 == file,
        forall|j: int| from <= j < at ==> (#[trigger] paths[j]).0 != file,
    ensures
        lookups::path_for(paths, file, from) == Some(paths[at].1),
    decreases at - from,
{
    if from < at {
        lemma_path(paths, file, from + 1, at);
    }
}

/// Every icon is listed whose row is the first of its name, with the first path that is
/// given for its file.
pub proof fn law_icons_hold_all(
    paths: Seq<(i64, Seq<char>)>,
    rows: Seq<(Seq<char>, i64)>,
    n: int,
    i: int,
    p: int,
)
    requires
        0 <= i < n <= rows.len(),
        rows[i].0.len() > 0,
        forall|j: int| 0 <= j < i ==> (#[trigger] rows[j]).0 != rows[i].0,
        0 <= p < paths.len(),
        paths[p].0 == rows[i].1,
        forall|j: int| 0 <= j < p ==> (#[trigger] paths[j]).0 != rows[i].1,
    ensures
        lookups::atlas_icons(paths, rows, n).contains(
            AtlasModel { map_key: rows[i].0, atlas_path: paths[p].1, row: i },
        ),
    decreases n,
{
    let before = lookups::atlas_icons(paths, rows, n - 1);
    let r = lookups::atlas_icons(paths, rows, n);
    let e = AtlasModel { map_key: rows[i].0, atlas_path: paths[p].1, row: i };
    if i < n - 1 {
        law_icons_hold_all(paths, rows, n - 1, i, p);
        let at = choose|at: int| 0 <= at < before.len() && before[at] == e;
        assert(r[at] == e);
    } else {
        lemma_path(paths, rows[i].1, 0, p);
        assert(r[r.len() - 1] == e);
    }
}

proof fn lemma_tidy_both(a: Seq<Seq<char>>, b: Seq<Seq<char>>)
    ensures
        lookups::tidy(a + b) == lookups::tidy(a) + lookups::tidy(b),
    decreases b.len(),
{
    if b.len() == 0 {
        assert(a + b =~= a);
        assert(lookups::tidy(a) + lookups::tidy(b) =~= lookups::tidy(a));
    } else {
        assert((a + b).drop_last() =~= a + b.drop_last());
        assert((a + b).last() == b.last());
        lemma_tidy_both(a, b.drop_last());
        assert(lookups::tidy(a + b) =~= lookups::tidy(a) + lookups::tidy(b));
    }
}

/// The items of a list.
pub open spec fn items_in(s: Seq<char>) -> Seq<Seq<char>> {
    lookups::tidy(text::pieces(s, ';'))
}

/// The items of a list stand between semicolons: without the blank around them, and without
/// those that are blank.
pub proof fn law_items_stand_between_semicolons(a: Seq<char>, b: Seq<char>)
    requires
        list_laws::lacks(a, ';'),
    ensures
        items_in(a) == (if text::trimmed(a).len() > 0 {
            seq![text::trimmed(a)]
        } else {
            Seq::empty()
        }),
        items_in(a + seq![';'] + b) == items_in(a) + items_in(b),
{
    reveal_with_fuel(lookups::tidy, 2);
    text::lemma_char_at_or_end(a, ';', 0);
    assert(text::pieces(a, ';') == seq![a]);
    let one = seq![a];
    assert(one.drop_last() =~= Seq::<Seq<char>>::empty());
    assert(one.last() == a);
    let s = a + seq![';'] + b;
    text::lemma_char_at_or_end(s, ';', 0);
    let n = text::char_at_or_end(s, ';', 0);
    assert(s[a.len() as int] == ';');
    if n < a.len() {
        assert(s[n] == a[n]);
    }
    assert(s.take(n) =~= a);
    assert(s.skip(n + 1) =~= b);
    lemma_tidy_both(seq![a], text::pieces(b, ';'));
}

/// A list has the items of the first column of spells, passives, skills, abilities and
/// equipment that holds something, and is shown by its comment.
pub proof fn law_list_has_items(node_id: Seq<char>, columns: Seq<Seq<char>>, row: NamedModel)
    ensures
        ({
            let l = lookups::list_of(node_id, columns, row);
            let spells = filled(columns, row, "Spells"@);
            let passives = filled(columns, row, "Passives"@);
            let skills = filled(columns, row, "Skills"@);
            let abilities = filled(columns, row, "Abilities"@);
            let equipment = filled(columns, row, "Equipment"@);
            &&& l.uuid == row.key
            &&& l.node_id == node_id
            &&& l.display_name == text::or_empty(select::cell_of(columns, row.cells, "Comment"@))
            &&& spells is Some ==> has_items(l, "Spells"@, spells->0)
            &&& spells is None && passives is Some ==> has_items(l, "Passives"@, passives->0)
            &&& spells is None && passives is None && skills is Some ==> has_items(
                l,
                "Skills"@,
                skills->0,
            )
            &&& spells is None && passives is None && skills is None && abilities is Some
                ==> has_items(l, "Abilities"@, abilities->0)
            &&& spells is None && passives is None && skills is None && abilities is None
                && equipment is Some ==> has_items(l, "Equipment"@, equipment->0)
            &&& spells is None && passives is None && skills is None && abilities is None
                && equipment is None ==> l.items.len() == 0 && l.item_key.len() == 0
        }),
{
    reveal_with_fuel(lookups::first_field, 7);
    let f = lookups::item_columns();
    assert(f.len() == 5);
    assert(f[0] == "Spells"@ && f[1] == "Passives"@ && f[2] == "Skills"@ && f[3] == "Abilities"@
        && f[4] == "Equipment"@);
}

/// Whether a list has the items that a column holds.
pub open spec fn has_items(l: ListModel, column: Seq<char>, s: Seq<char>) -> bool {
    l.item_key == column && l.items == items_in(s)
}

/// A resource has the key of its row as its name, and is shown by its display name, else
/// its comment, else its name.
pub proof fn law_resource_is_named(kind: Seq<char>, columns: Seq<Seq<char>>, row: NamedModel)
    ensures
        ({
            let c = lookups::cost_of(kind, columns, row);
            let display = filled(columns, row, "DisplayName"@);
            let comment = filled(columns, row, "Comment"@);
            let level = select::cell_of(columns, row.cells, "MaxLevel"@);
            &&& c.name == row.key
            &&& c.kind == kind
            &&& display is Some ==> c.display_name == display->0
            &&& display is None && comment is Some ==> c.display_name == comment->0
            &&& display is None && comment is None ==> c.display_name == row.key
            &&& level is None ==> c.max_level == 0
            &&& level matches Some(s) ==> (text::number_within(
                s,
                i32::MIN as int,
                i32::MAX as int,
            ) matches Some(n) ==> c.max_level == n)
        }),
{
}

proof fn lemma_costs(groups: Seq<CostRowsModel>, i: int, k: int)
    requires
        0 <= i < groups.len(),
        0 <= k < groups[i].rows.len(),
    ensures
        lookups::costs_of(groups).contains(
            lookups::ranked_cost(
                lookups::cost_of(groups[i].kind, groups[i].columns, groups[i].rows[k]),
            ),
        ),
    decreases groups.len(),
{
    let d = groups.drop_last();
    let before = lookups::costs_of(d);
    let r = lookups::costs_of(groups);
    let c = lookups::ranked_cost(
        lookups::cost_of(groups[i].kind, groups[i].columns, groups[i].rows[k]),
    );
    if i < d.len() {
        assert(d[i] == groups[i]);
        lemma_costs(d, i, k);
        let at = choose|at: int| 0 <= at < before.len() && before[at] == c;
        assert(r[at] == c);
    } else {
        assert(r[before.len() + k] == c);
    }
}

proof fn lemma_costs_order()
    ensures
        order::orders(order::rank::<RankedCost>()),
{
    let before = order::rank::<RankedCost>();
    assert forall|a: RankedCostModel, b: RankedCostModel| #[trigger] before(a, b) implies !before(
        b,
        a,
    ) by {
        lemma_not_back(a.info.kind, b.info.kind);
        lemma_not_back(a.display_key, b.display_key);
        lemma_not_back(a.name_key, b.name_key);
    }
    assert forall|a: RankedCostModel, b: RankedCostModel, c: RankedCostModel|
        #![trigger before(a, c), before(a, b)]
        #![trigger before(a, c), before(b, c)]
        before(a, c) implies before(a, b) || before(b, c) by {
        lemma_between(a.info.kind, b.info.kind, c.info.kind);
        lemma_between(a.display_key, b.display_key, c.display_key);
        lemma_between(a.name_key, b.name_key, c.name_key);
        order::lemma_text_lt_total(a.info.kind, b.info.kind);
        order::lemma_text_lt_total(a.display_key, b.display_key);
        order::lemma_text_lt_irreflexive(a.info.kind);
        order::lemma_text_lt_irreflexive(a.display_key);
        lemma_not_back(a.info.kind, b.info.kind);
        lemma_not_back(a.display_key, b.display_key);
    }
}

proof fn lemma_not_back(a: Seq<char>, b: Seq<char>)
    ensures
        !(order::text_lt(a, b) && order::text_lt(b, a)),
{
    if order::text_lt(a, b) && order::text_lt(b, a) {
        order::lemma_text_lt_transitive(a, b, a);
        order::lemma_text_lt_irreflexive(a);
    }
}

proof fn lemma_between(a: Seq<char>, b: Seq<char>, c: Seq<char>)
    ensures
        order::text_lt(a, c) ==> order::text_lt(a, b) || order::text_lt(b, c),
{
    order::lemma_text_lt_total(a, b);
    if order::text_lt(a, c) && order::text_lt(b, a) {
        order::lemma_text_lt_transitive(b, a, c);
    }
}

/// Every row of a resource is answered.
pub proof fn law_resources_hold_all(groups: Seq<CostRowsModel>, i: int, k: int)
    requires
        0 <= i < groups.len(),
        0 <= k < groups[i].rows.len(),
    ensures
        lookups::costs_in_order(lookups::costs_of(groups)).contains(
            lookups::cost_of(groups[i].kind, groups[i].columns, groups[i].rows[k]),
        ),
{
    let c = lookups::cost_of(groups[i].kind, groups[i].columns, groups[i].rows[k]);
    let all = lookups::costs_of(groups);
    let before = order::rank::<RankedCost>();
    lemma_costs(groups, i, k);
    lemma_costs_order();
    order::lemma_sorted_holds(all, before);
    let sorted = order::stable_sort(all, before);
    let r = lookups::costs_in_order(all);
    let at = choose|at: int| 0 <= at < sorted.len() && sorted[at] == lookups::ranked_cost(c);
    assert(r[at] == c);
}

/// The names of equipment sets are those of the rows that could be read, in order.
pub proof fn law_readable_rows_stay(a: Seq<Option<Seq<char>>>, b: Seq<Option<Seq<char>>>)
    ensures
        lookups::readable(a + b) == lookups::readable(a) + lookups::readable(b),
        b.len() == 1 ==> lookups::readable(b) == (match b[0] {
            Some(s) => seq![s],
            None => Seq::empty(),
        }),
    decreases b.len(),
{
    if b.len() == 0 {
        assert(a + b =~= a);
        assert(lookups::readable(a) + lookups::readable(b) =~= lookups::readable(a));
    } else {
        assert((a + b).drop_last() =~= a + b.drop_last());
        assert((a + b).last() == b.last());
        law_readable_rows_stay(a, b.drop_last());
        assert(lookups::readable(a + b) =~= lookups::readable(a) + lookups::readable(b));
        reveal_with_fuel(lookups::readable, 2);
    }
}

} // verus!
