//! The references that the columns of a table hold to other tables.

use vstd::prelude::*;
use crate::discovery::{RawModel, RawTableInfo};
use crate::fk_patterns;
use crate::fk_patterns::{match_fk_pattern, object_fk_for_node, table_specific_fk, FkPattern, FkRule,
    FkType};
use crate::schema;
use crate::schema::{consolidate, FkConstraint, FkModel};
use crate::stats_text;
use crate::stats_text::is_stats_loca_column;
use crate::text::{owned, starts_with, text_eq};
use crate::textmap;
use crate::textmap::TextMap;

verus! {

/// The name that a table has after renaming.
pub open spec fn renamed(renames: Seq<(Seq<char>, Seq<char>)>, name: Seq<char>) -> Seq<char> {
    match textmap::value_of(renames, name) {
        Some(n) => n,
        None => name,
    }
}

/// The name that a table has after renaming.
pub fn rename(renames: &TextMap<String>, name: &str) -> (r: String)
    ensures
        r@ == renamed(renames.deep_view(), name@),
{
    match renames.get(name) {
        Some(n) => n.clone(),
        None => owned(name),
    }
}

/// The table that a rule's target stands for, where there is one: under its
/// present name or under its consolidated name.
pub open spec fn target_table(
    tables: Seq<(Seq<char>, RawModel)>,
    renames: Seq<(Seq<char>, Seq<char>)>,
    name: Seq<char>,
) -> Option<Seq<char>> {
    let direct = renamed(renames, name);
    let short = schema::consolidated(name);
    if textmap::has_key(tables, direct) {
        Some(direct)
    } else if short is Some && textmap::has_key(tables, renamed(renames, short->0)) {
        Some(renamed(renames, short->0))
    } else {
        None
    }
}

/// The table that a rule's target stands for.
pub fn find_target(
    tables: &TextMap<RawTableInfo>,
    renames: &TextMap<String>,
    name: &str,
) -> (r: Option<String>)
    ensures
        r.deep_view() == target_table(tables.deep_view(), renames.deep_view(), name@),
{
    let direct = rename(renames, name);
    if tables.contains_key(direct.as_str()) {
        return Some(direct);
    }
    if let Some(short) = consolidate(name) {
        let n = rename(renames, short.as_str());
        if tables.contains_key(n.as_str()) {
            return Some(n);
        }
    }
    None
}

/// A reference from a column.
pub open spec fn reference(column: Seq<char>, table: Seq<char>, target: Seq<char>) -> FkModel {
    FkModel { source_column: column, target_table: table, target_column: target }
}

fn make_reference(column: &str, table: String, target: &str) -> (r: FkConstraint)
    ensures
        r.deep_view() == reference(column@, table@, target@),
{
    FkConstraint {
        source_column: owned(column),
        target_table: table,
        target_column: owned(target),
    }
}

/// Whether a column holds one of the references.
pub open spec fn referring(fks: Seq<FkModel>, column: Seq<char>) -> bool {
    exists|i: int| 0 <= i < fks.len() && (#[trigger] fks[i]).source_column == column
}

/// Whether a column holds one of the references.
#[verifier::loop_isolation(false)]
pub fn refers(fks: &Vec<FkConstraint>, column: &str) -> (r: bool)
    ensures
        r == referring(fks.deep_view(), column@),
{
    let ghost all = fks.deep_view();
    let mut i: usize = 0;
    while i < fks.len()
        invariant
            i <= fks@.len(),
            forall|k: int| 0 <= k < i ==> (#[trigger] all[k]).source_column != column@,
        decreases fks@.len() - i,
    {
        assert(all[i as int].source_column == fks@[i as int].source_column@);
        if text_eq(fks[i].source_column.as_str(), column) {
            return true;
        }
        i += 1;
    }
    false
}

/// What the rules need to know of the other tables.
pub struct Names {
    pub tables: Seq<(Seq<char>, RawModel)>,
    pub renames: Seq<(Seq<char>, Seq<char>)>,
}

impl Names {
    /// The table that a rule's target stands for.
    pub open spec fn target(self, name: Seq<char>) -> Option<Seq<char>> {
        target_table(self.tables, self.renames, name)
    }
}

/// The references by the rules on single columns of single tables.
pub open spec fn specific_refs(
    table: Seq<char>,
    columns: Seq<(Seq<char>, Seq<char>)>,
    names: Names,
) -> Seq<FkModel>
    decreases columns.len(),
{
    if columns.len() == 0 {
        Seq::empty()
    } else {
        let before = specific_refs(table, columns.drop_last(), names);
        let target = match fk_patterns::specific_target(table, columns.last().0) {
            Some(t) => names.target(t),
            None => None,
        };
        match target {
            Some(t) => before.push(reference(columns.last().0, t, "UUID"@)),
            None => before,
        }
    }
}

/// The reference of the `Object` column, by the kind of node.
pub open spec fn object_ref(
    columns: Seq<(Seq<char>, Seq<char>)>,
    node_id: Option<Seq<char>>,
    names: Names,
    so_far: Seq<FkModel>,
) -> Seq<FkModel> {
    let target = match node_id {
        Some(n) => match fk_patterns::object_target(n) {
            Some(t) => names.target(t),
            None => None,
        },
        None => None,
    };
    if textmap::value_of(columns, "Object"@) == Some("guid"@) && !referring(so_far, "Object"@)
        && target is Some {
        so_far.push(reference("Object"@, target->0, "UUID"@))
    } else {
        so_far
    }
}

/// The reference that a rule on column names makes, where it makes one.
pub open spec fn rule_ref(
    table: Seq<char>,
    column: Seq<char>,
    rule: FkRule,
    names: Names,
) -> Option<FkModel> {
    if rule.fk_type == FkType::UuidSelf && rule.target_column is Some {
        Some(reference(column, table, rule.target_column->0))
    } else if (rule.fk_type == FkType::Uuid || rule.fk_type == FkType::Name)
        && rule.target_table is Some && rule.target_column is Some && names.target(
        rule.target_table->0,
    ) is Some {
        Some(reference(column, names.target(rule.target_table->0)->0, rule.target_column->0))
    } else {
        None
    }
}

/// The types of columns that the rules on column names speak of.
pub open spec fn key_typed(bg3_type: Seq<char>) -> bool {
    bg3_type == "guid"@ || bg3_type == "FixedString"@
}

/// The references with those by the rules on column names. `rules` gives the
/// rule for each column.
pub open spec fn pattern_refs(
    table: Seq<char>,
    columns: Seq<(Seq<char>, Seq<char>)>,
    rules: Seq<Option<FkRule>>,
    names: Names,
    so_far: Seq<FkModel>,
) -> Seq<FkModel>
    decreases columns.len(),
{
    if columns.len() == 0 {
        so_far
    } else {
        let before = pattern_refs(table, columns.drop_last(), rules, names, so_far);
        let column = columns.last().0;
        let rule = rules[columns.len() - 1];
        let made = match rule {
            Some(r) => rule_ref(table, column, r, names),
            None => None,
        };
        if !referring(before, column) && key_typed(columns.last().1) && made is Some {
            before.push(made->0)
        } else {
            before
        }
    }
}

/// The references with those of localized columns.
pub open spec fn localized_refs(
    columns: Seq<(Seq<char>, Seq<char>)>,
    names: Names,
    so_far: Seq<FkModel>,
) -> Seq<FkModel>
    decreases columns.len(),
{
    if columns.len() == 0 {
        so_far
    } else {
        let before = localized_refs(columns.drop_last(), names, so_far);
        if columns.last().1 == "TranslatedString"@ && names.target("loca__english"@) is Some {
            before.push(reference(columns.last().0, "loca__english"@, "contentuid"@))
        } else {
            before
        }
    }
}

/// The references with that of a stats entry to the entry it builds on.
pub open spec fn using_ref(
    table: Seq<char>,
    columns: Seq<(Seq<char>, Seq<char>)>,
    so_far: Seq<FkModel>,
) -> Seq<FkModel> {
    if "stats__"@.is_prefix_of(table) && textmap::has_key(columns, "_using"@) {
        so_far.push(reference("_using"@, table, "_entry_name"@))
    } else {
        so_far
    }
}

/// The references with those of the names and descriptions of stats entries.
pub open spec fn stats_loca_refs(
    columns: Seq<(Seq<char>, Seq<char>)>,
    names: Names,
    so_far: Seq<FkModel>,
) -> Seq<FkModel>
    decreases columns.len(),
{
    if columns.len() == 0 {
        so_far
    } else {
        let before = stats_loca_refs(columns.drop_last(), names, so_far);
        let column = columns.last().0;
        if stats_text::loca_column(column) && names.target("loca__english"@) is Some && !referring(
            before,
            column,
        ) {
            before.push(reference(column, "loca__english"@, "contentuid"@))
        } else {
            before
        }
    }
}

/// All references of a table, given the rule for each column.
pub open spec fn references(
    table: Seq<char>,
    columns: Seq<(Seq<char>, Seq<char>)>,
    node_id: Option<Seq<char>>,
    rules: Seq<Option<FkRule>>,
    names: Names,
) -> Seq<FkModel> {
    let specific = specific_refs(table, columns, names);
    let object = object_ref(columns, node_id, names, specific);
    let patterned = pattern_refs(table, columns, rules, names, object);
    let localized = localized_refs(columns, names, patterned);
    let using = using_ref(table, columns, localized);
    if "stats__"@.is_prefix_of(table) {
        stats_loca_refs(columns, names, using)
    } else {
        using
    }
}

/// The rule for each column, by its name and type.
pub open spec fn column_rules(columns: Seq<(Seq<char>, Seq<char>)>) -> Seq<Option<FkRule>> {
    columns.map_values(
        |p: (Seq<char>, Seq<char>)|
            if key_typed(p.1) {
                fk_patterns::rule_for(fk_patterns::found_in(p.0), p.1)
            } else {
                None
            },
    )
}

#[verifier::loop_isolation(false)]
fn add_specific(
    table: &str,
    columns: &TextMap<String>,
    tables: &TextMap<RawTableInfo>,
    renames: &TextMap<String>,
) -> (fks: Vec<FkConstraint>)
    ensures
        fks.deep_view() == specific_refs(
            table@,
            columns.deep_view(),
            Names { tables: tables.deep_view(), renames: renames.deep_view() },
        ),
{
    let ghost names = Names { tables: tables.deep_view(), renames: renames.deep_view() };
    let ghost all = columns.deep_view();
    let mut fks: Vec<FkConstraint> = Vec::new();
    assert(fks.deep_view() =~= specific_refs(table@, all.take(0), names));
    let mut i: usize = 0;
    while i < columns.entries.len()
        invariant
            i <= columns.entries@.len(),
            fks.deep_view() == specific_refs(table@, all.take(i as int), names),
        decreases columns.entries@.len() - i,
    {
        let column = columns.entries[i].0.as_str();
        assert(all.take(i + 1).drop_last() =~= all.take(i as int));
        assert(all[i as int].0 == column@);
        let ghost before = fks.deep_view();
        if let Some((t, c)) = table_specific_fk(table, column) {
            if let Some(found) = find_target(tables, renames, t) {
                fks.push(make_reference(column, found, c));
                assert(fks.deep_view() =~= before.push(reference(column@, found@, "UUID"@)));
            }
        }
        i += 1;
    }
    assert(all.take(i as int) =~= all);
    fks
}

fn add_object(
    columns: &TextMap<String>,
    node_id: &Option<String>,
    tables: &TextMap<RawTableInfo>,
    renames: &TextMap<String>,
    fks: &mut Vec<FkConstraint>,
)
    ensures
        final(fks).deep_view() == object_ref(
            columns.deep_view(),
            node_id.deep_view(),
            Names { tables: tables.deep_view(), renames: renames.deep_view() },
            old(fks).deep_view(),
        ),
{
    let ghost before = fks.deep_view();
    let is_guid = match columns.get("Object") {
        Some(t) => text_eq(t.as_str(), "guid"),
        None => false,
    };
    if is_guid && !refers(fks, "Object") {
        if let Some(n) = node_id {
            if let Some((t, c)) = object_fk_for_node(n.as_str()) {
                if let Some(found) = find_target(tables, renames, t) {
                    fks.push(make_reference("Object", found, c));
                    assert(fks.deep_view() =~= before.push(
                        reference("Object"@, found@, "UUID"@),
                    ));
                }
            }
        }
    }
}

fn apply_rule(
    table: &str,
    column: &str,
    rule: &FkPattern,
    tables: &TextMap<RawTableInfo>,
    renames: &TextMap<String>,
) -> (r: Option<FkConstraint>)
    ensures
        r.deep_view() == rule_ref(
            table@,
            column@,
            rule.deep_view(),
            Names { tables: tables.deep_view(), renames: renames.deep_view() },
        ),
{
    let target_column = match rule.target_column {
        Some(c) => c,
        None => {
            return None;
        },
    };
    match rule.fk_type {
        FkType::UuidSelf => Some(make_reference(column, owned(table), target_column)),
        FkType::Uuid | FkType::Name => match rule.target_table {
            Some(t) => match find_target(tables, renames, t) {
                Some(found) => Some(make_reference(column, found, target_column)),
                None => None,
            },
            None => None,
        },
        _ => None,
    }
}

fn is_key_typed(t: &str) -> (r: bool)
    ensures
        r == key_typed(t@),
{
    text_eq(t, "guid") || text_eq(t, "FixedString")
}

#[verifier::loop_isolation(false)]
fn add_patterned(
    table: &str,
    columns: &TextMap<String>,
    rules: &Vec<Option<FkPattern>>,
    tables: &TextMap<RawTableInfo>,
    renames: &TextMap<String>,
    fks: &mut Vec<FkConstraint>,
)
    requires
        rules@.len() == columns.deep_view().len(),
    ensures
        final(fks).deep_view() == pattern_refs(
            table@,
            columns.deep_view(),
            rules.deep_view(),
            Names { tables: tables.deep_view(), renames: renames.deep_view() },
            old(fks).deep_view(),
        ),
{
    let ghost names = Names { tables: tables.deep_view(), renames: renames.deep_view() };
    let ghost all = columns.deep_view();
    let ghost rs = rules.deep_view();
    let ghost start = fks.deep_view();
    let mut i: usize = 0;
    while i < columns.entries.len()
        invariant
            i <= columns.entries@.len(),
            fks.deep_view() == pattern_refs(table@, all.take(i as int), rs, names, start),
        decreases columns.entries@.len() - i,
    {
        let column = columns.entries[i].0.as_str();
        let ty = columns.entries[i].1.as_str();
        assert(all.take(i + 1).drop_last() =~= all.take(i as int));
        assert(all[i as int] == (column@, ty@));
        assert(rs[i as int] == rules@[i as int].deep_view());
        let ghost before = fks.deep_view();
        if !refers(fks, column) && is_key_typed(ty) {
            if let Some(rule) = &rules[i] {
                if let Some(made) = apply_rule(table, column, rule, tables, renames) {
                    fks.push(made);
                    assert(fks.deep_view() =~= before.push(made.deep_view()));
                }
            }
        }
        i += 1;
    }
    assert(all.take(i as int) =~= all);
}

#[verifier::loop_isolation(false)]
fn add_localized(
    columns: &TextMap<String>,
    tables: &TextMap<RawTableInfo>,
    renames: &TextMap<String>,
    fks: &mut Vec<FkConstraint>,
)
    ensures
        final(fks).deep_view() == localized_refs(
            columns.deep_view(),
            Names { tables: tables.deep_view(), renames: renames.deep_view() },
            old(fks).deep_view(),
        ),
{
    let ghost names = Names { tables: tables.deep_view(), renames: renames.deep_view() };
    let ghost all = columns.deep_view();
    let ghost start = fks.deep_view();
    let known = find_target(tables, renames, "loca__english").is_some();
    let mut i: usize = 0;
    while i < columns.entries.len()
        invariant
            i <= columns.entries@.len(),
            fks.deep_view() == localized_refs(all.take(i as int), names, start),
        decreases columns.entries@.len() - i,
    {
        let p = &columns.entries[i];
        assert(all.take(i + 1).drop_last() =~= all.take(i as int));
        assert(all[i as int] == (p.0@, p.1@));
        let ghost before = fks.deep_view();
        if known && text_eq(p.1.as_str(), "TranslatedString") {
            fks.push(make_reference(p.0.as_str(), owned("loca__english"), "contentuid"));
            assert(fks.deep_view() =~= before.push(
                reference(p.0@, "loca__english"@, "contentuid"@),
            ));
        }
        i += 1;
    }
    assert(all.take(i as int) =~= all);
}

#[verifier::loop_isolation(false)]
fn add_stats_loca(
    columns: &TextMap<String>,
    tables: &TextMap<RawTableInfo>,
    renames: &TextMap<String>,
    fks: &mut Vec<FkConstraint>,
)
    ensures
        final(fks).deep_view() == stats_loca_refs(
            columns.deep_view(),
            Names { tables: tables.deep_view(), renames: renames.deep_view() },
            old(fks).deep_view(),
        ),
{
    let ghost names = Names { tables: tables.deep_view(), renames: renames.deep_view() };
    let ghost all = columns.deep_view();
    let ghost start = fks.deep_view();
    let known = find_target(tables, renames, "loca__english").is_some();
    let mut i: usize = 0;
    while i < columns.entries.len()
        invariant
            i <= columns.entries@.len(),
            fks.deep_view() == stats_loca_refs(all.take(i as int), names, start),
        decreases columns.entries@.len() - i,
    {
        let column = columns.entries[i].0.as_str();
        assert(all.take(i + 1).drop_last() =~= all.take(i as int));
        assert(all[i as int].0 == column@);
        let ghost before = fks.deep_view();
        if known && is_stats_loca_column(column) && !refers(fks, column) {
            fks.push(make_reference(column, owned("loca__english"), "contentuid"));
            assert(fks.deep_view() =~= before.push(
                reference(column@, "loca__english"@, "contentuid"@),
            ));
        }
        i += 1;
    }
    assert(all.take(i as int) =~= all);
}

/// The references of a table, given the rule for each of its columns.
pub fn references_by_rules(
    table_name: &str,
    columns: &TextMap<String>,
    node_id: &Option<String>,
    rules: &Vec<Option<FkPattern>>,
    all_tables: &TextMap<RawTableInfo>,
    renames: &TextMap<String>,
) -> (r: Vec<FkConstraint>)
    requires
        rules@.len() == columns.deep_view().len(),
    ensures
        r.deep_view() == references(
            table_name@,
            columns.deep_view(),
            node_id.deep_view(),
            rules.deep_view(),
            Names { tables: all_tables.deep_view(), renames: renames.deep_view() },
        ),
{
    let mut fks = add_specific(table_name, columns, all_tables, renames);
    add_object(columns, node_id, all_tables, renames, &mut fks);
    add_patterned(table_name, columns, rules, all_tables, renames, &mut fks);
    add_localized(columns, all_tables, renames, &mut fks);
    let is_stats = starts_with(table_name, "stats__");
    if is_stats && columns.contains_key("_using") {
        let ghost before = fks.deep_view();
        fks.push(make_reference("_using", owned(table_name), "_entry_name"));
        assert(fks.deep_view() =~= before.push(
            reference("_using"@, table_name@, "_entry_name"@),
        ));
    }
    if is_stats {
        add_stats_loca(columns, all_tables, renames, &mut fks);
    }
    fks
}

/// The references of a table.
#[verifier::loop_isolation(false)]
pub fn compute_fk_constraints(
    table_name: &str,
    columns: &TextMap<String>,
    node_id: &Option<String>,
    all_tables: &TextMap<RawTableInfo>,
    renames: &TextMap<String>,
) -> (r: Vec<FkConstraint>)
    ensures
        r.deep_view() == references(
            table_name@,
            columns.deep_view(),
            node_id.deep_view(),
            column_rules(columns.deep_view()),
            Names { tables: all_tables.deep_view(), renames: renames.deep_view() },
        ),
{
    let ghost want = column_rules(columns.deep_view());
    let mut rules: Vec<Option<FkPattern>> = Vec::new();
    let mut i: usize = 0;
    while i < columns.entries.len()
        invariant
            i <= columns.entries@.len(),
            rules.deep_view() == want.take(i as int),
        decreases columns.entries@.len() - i,
    {
        let p = &columns.entries[i];
        assert(columns.deep_view()[i as int] == (p.0@, p.1@));
        let rule = if is_key_typed(p.1.as_str()) {
            match_fk_pattern(p.0.as_str(), p.1.as_str())
        } else {
            None
        };
        rules.push(rule);
        i += 1;
        assert(rules.deep_view() =~= want.take(i as int));
    }
    assert(want.take(i as int) =~= want);
    references_by_rules(table_name, columns, node_id, &rules, all_tables, renames)
}

} // verus!
