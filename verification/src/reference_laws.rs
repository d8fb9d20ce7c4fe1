//! What holds of the references of tables: which columns refer, and to what.

use vstd::prelude::*;
use crate::discovery::DiscoveryModel;
use crate::fk_patterns;
use crate::fk_patterns::{FkRule, FkType};
use crate::order;
use crate::references;
use crate::references::Names;
use crate::schema;
use crate::schema::{ColumnDef, ColumnModel, FkModel, PkStrategy};
use crate::schema_build;
use crate::schema_laws;
use crate::stats_text;
use crate::text;
use crate::textmap;

verus! {

// ---------------------------------------------------------------------------
// Targets
// ---------------------------------------------------------------------------

/// The name that a table has now.
pub open spec fn present_name(renames: Seq<(Seq<char>, Seq<char>)>, name: Seq<char>) -> Seq<char> {
    if textmap::has_key(renames, name) {
        textmap::value_of(renames, name)->0
    } else {
        name
    }
}

/// Whether a name is another up to its second double underscore.
pub open spec fn is_short(name: Seq<char>, short: Seq<char>) -> bool {
    exists|i: int, j: int|
        {
            &&& #[trigger] text::occurs_at(name, "__"@, i)
            &&& #[trigger] text::occurs_at(name, "__"@, j)
            &&& j >= i + 2
            &&& forall|k: int| 0 <= k < i ==> !text::occurs_at(name, "__"@, k)
            &&& forall|k: int| i + 2 <= k < j ==> !text::occurs_at(name, "__"@, k)
            &&& short == name.take(j)
        }
}

/// Whether a table is the one that a rule means by a name: it has that name now, or,
/// where no table has, the name up to its second double underscore.
pub open spec fn is_target<T>(
    tables: Seq<(Seq<char>, T)>,
    renames: Seq<(Seq<char>, Seq<char>)>,
    name: Seq<char>,
    table: Seq<char>,
) -> bool {
    &&& textmap::has_key(tables, table)
    &&& table == present_name(renames, name) || (!textmap::has_key(
        tables,
        present_name(renames, name),
    ) && exists|short: Seq<char>| #[trigger]
        is_short(name, short) && table == present_name(renames, short))
}

proof fn lemma_short(name: Seq<char>, short: Seq<char>)
    ensures
        is_short(name, short) <==> schema::consolidated(name) == Some(short),
{
    reveal_strlit("__");
    text::lemma_first_at(name, "__"@, 0);
    match text::first_at(name, "__"@, 0) {
        Some(i) => {
            text::lemma_first_at(name, "__"@, i + 2);
        },
        None => {},
    }
    if schema::consolidated(name) == Some(short) {
        let i = text::first_at(name, "__"@, 0)->0;
        let j = text::first_at(name, "__"@, i + 2)->0;
        assert(text::occurs_at(name, "__"@, i));
        assert(text::occurs_at(name, "__"@, j));
    }
    if is_short(name, short) {
        let (i, j) = choose|i: int, j: int|
            {
                &&& #[trigger] text::occurs_at(name, "__"@, i)
                &&& #[trigger] text::occurs_at(name, "__"@, j)
                &&& j >= i + 2
                &&& forall|k: int| 0 <= k < i ==> !text::occurs_at(name, "__"@, k)
                &&& forall|k: int| i + 2 <= k < j ==> !text::occurs_at(name, "__"@, k)
                &&& short == name.take(j)
            };
        let a = text::first_at(name, "__"@, 0);
        assert(a == Some(i)) by {
            if a is Some && a->0 < i {
                assert(text::occurs_at(name, "__"@, a->0));
            }
        }
        let b = text::first_at(name, "__"@, i + 2);
        assert(b == Some(j)) by {
            if b is Some && b->0 < j {
                assert(text::occurs_at(name, "__"@, b->0));
            }
        }
    }
}

proof fn lemma_target(names: Names, name: Seq<char>, table: Seq<char>)
    ensures
        names.target(name) == Some(table) <==> is_target(names.tables, names.renames, name, table),
{
    assert forall|short: Seq<char>| #[trigger] is_short(name, short) implies schema::consolidated(
        name,
    ) == Some(short) by {
        lemma_short(name, short);
    }
    match schema::consolidated(name) {
        Some(short) => {
            lemma_short(name, short);
        },
        None => {},
    }
}

// ---------------------------------------------------------------------------
// Rules
// ---------------------------------------------------------------------------

/// Whether the rule in place `n` is the one for a column: the first whose pattern the
/// name of the column matches. Only columns of some types have one.
pub open spec fn is_rule_for(name: Seq<char>, bg3_type: Seq<char>, n: int) -> bool {
    &&& bg3_type == "guid"@ || bg3_type == "FixedString"@
    &&& 0 <= n < fk_patterns::FK_PATTERN_COUNT
    &&& fk_patterns::regex_found(fk_patterns::fk_rule(n).pattern, name)
    &&& forall|m: int|
        0 <= m < n ==> !fk_patterns::regex_found((#[trigger] fk_patterns::fk_rule(m)).pattern, name)
}

/// Whether a rule says that a column refers to another table, by its key or its name.
pub open spec fn refers_elsewhere(r: FkRule) -> bool {
    (r.fk_type == FkType::Uuid || r.fk_type == FkType::Name) && r.target_table is Some
        && r.target_column is Some
}

/// Whether a rule says that a column refers to the table that it stands in.
pub open spec fn refers_to_itself(r: FkRule) -> bool {
    r.fk_type == FkType::UuidSelf && r.target_column is Some
}

/// The table that the `Object` column means, by the node that it belongs to.
pub open spec fn object_of(node_id: Option<Seq<char>>) -> Option<Seq<char>> {
    match node_id {
        Some(n) => fk_patterns::object_target(n),
        None => None,
    }
}

/// Whether a column has a rule of its own, or one by the node that it belongs to.
pub open spec fn has_own_rule(
    table: Seq<char>,
    node_id: Option<Seq<char>>,
    name: Seq<char>,
    bg3_type: Seq<char>,
) -> bool {
    ||| fk_patterns::specific_target(table, name) is Some
    ||| name == "Object"@ && bg3_type == "guid"@ && object_of(node_id) is Some
}

/// A reference.
pub open spec fn made(column: Seq<char>, table: Seq<char>, target: Seq<char>) -> FkModel {
    FkModel { source_column: column, target_table: table, target_column: target }
}

/// Whether a column has the references that the rules give it.
pub open spec fn refers_by_rules<T>(
    table: Seq<char>,
    name: Seq<char>,
    bg3_type: Seq<char>,
    node_id: Option<Seq<char>>,
    tables: Seq<(Seq<char>, T)>,
    renames: Seq<(Seq<char>, Seq<char>)>,
    fks: Seq<FkModel>,
) -> bool {
    &&& forall|x: Seq<char>, t: Seq<char>|
        fk_patterns::specific_target(table, name) == Some(x) && #[trigger] is_target(
            tables,
            renames,
            x,
            t,
        ) ==> fks.contains(made(name, t, "UUID"@))
    &&& forall|x: Seq<char>, t: Seq<char>|
        name == "Object"@ && bg3_type == "guid"@ && object_of(node_id) == Some(x)
            && fk_patterns::specific_target(table, name) is None && #[trigger] is_target(
            tables,
            renames,
            x,
            t,
        ) ==> fks.contains(made(name, t, "UUID"@))
    &&& forall|n: int, t: Seq<char>|
        #[trigger] is_rule_for(name, bg3_type, n) && refers_elsewhere(fk_patterns::fk_rule(n))
            && #[trigger] is_target(tables, renames, fk_patterns::fk_rule(n).target_table->0, t)
            && !has_own_rule(table, node_id, name, bg3_type) ==> fks.contains(
            made(name, t, fk_patterns::fk_rule(n).target_column->0),
        )
    &&& forall|n: int| #[trigger]
        is_rule_for(name, bg3_type, n) && refers_to_itself(fk_patterns::fk_rule(n))
            && !has_own_rule(table, node_id, name, bg3_type) ==> fks.contains(
            made(name, table, fk_patterns::fk_rule(n).target_column->0),
        )
    &&& bg3_type == "TranslatedString"@ && textmap::has_key(tables, "loca__english"@)
        && !textmap::has_key(renames, "loca__english"@) ==> fks.contains(
        made(name, "loca__english"@, "contentuid"@),
    )
    &&& name == "_using"@ && "stats__"@.is_prefix_of(table) ==> fks.contains(
        made(name, table, "_entry_name"@),
    )
    &&& stats_text::loca_column(name) && "stats__"@.is_prefix_of(table) && textmap::has_key(
        tables,
        "loca__english"@,
    ) && !textmap::has_key(renames, "loca__english"@) ==> fks.contains(
        made(name, "loca__english"@, "contentuid"@),
    ) || exists|k: int| 0 <= k < fks.len() && (#[trigger] fks[k]).source_column == name
}

/// Whether a rule gives a reference.
pub open spec fn has_reason<T>(
    table: Seq<char>,
    name: Seq<char>,
    bg3_type: Seq<char>,
    node_id: Option<Seq<char>>,
    tables: Seq<(Seq<char>, T)>,
    renames: Seq<(Seq<char>, Seq<char>)>,
    fk: FkModel,
) -> bool {
    &&& fk.source_column == name
    &&& {
        ||| {
            &&& fk_patterns::specific_target(table, name) is Some
            &&& is_target(
                tables,
                renames,
                fk_patterns::specific_target(table, name)->0,
                fk.target_table,
            )
            &&& fk.target_column == "UUID"@
        }
        ||| {
            &&& name == "Object"@
            &&& bg3_type == "guid"@
            &&& object_of(node_id) is Some
            &&& is_target(tables, renames, object_of(node_id)->0, fk.target_table)
            &&& fk.target_column == "UUID"@
        }
        ||| exists|n: int|
            {
                &&& #[trigger] is_rule_for(name, bg3_type, n)
                &&& fk_patterns::fk_rule(n).target_column == Some(fk.target_column)
                &&& (refers_elsewhere(fk_patterns::fk_rule(n)) && is_target(
                    tables,
                    renames,
                    fk_patterns::fk_rule(n).target_table->0,
                    fk.target_table,
                )) || (refers_to_itself(fk_patterns::fk_rule(n)) && fk.target_table == table)
            }
        ||| {
            &&& bg3_type == "TranslatedString"@ || ("stats__"@.is_prefix_of(table)
                && stats_text::loca_column(name))
            &&& fk.target_table == "loca__english"@
            &&& fk.target_column == "contentuid"@
        }
        ||| {
            &&& name == "_using"@
            &&& "stats__"@.is_prefix_of(table)
            &&& fk.target_table == table
            &&& fk.target_column == "_entry_name"@
        }
    }
}

// ---------------------------------------------------------------------------
// What the steps keep
// ---------------------------------------------------------------------------

spec fn extends(a: Seq<FkModel>, b: Seq<FkModel>) -> bool {
    a.len() <= b.len() && a == b.take(a.len() as int)
}

proof fn lemma_extends_holds(a: Seq<FkModel>, b: Seq<FkModel>)
    requires
        extends(a, b),
    ensures
        forall|x: FkModel| #[trigger] a.contains(x) ==> b.contains(x),
        forall|c: Seq<char>| #[trigger]
            references::referring(a, c) ==> references::referring(b, c),
{
    assert forall|x: FkModel| #[trigger] a.contains(x) implies b.contains(x) by {
        let i = choose|i: int| 0 <= i < a.len() && a[i] == x;
        assert(b[i] == b.take(a.len() as int)[i]);
    }
    assert forall|c: Seq<char>| #[trigger] references::referring(a, c) implies references::referring(
        b,
        c,
    ) by {
        let i = choose|i: int| 0 <= i < a.len() && (#[trigger] a[i]).source_column == c;
        assert(b[i] == b.take(a.len() as int)[i]);
    }
}

proof fn lemma_extends_push(a: Seq<FkModel>, b: Seq<FkModel>, x: FkModel)
    requires
        extends(a, b),
    ensures
        extends(a, b.push(x)),
{
    assert(b.push(x).take(a.len() as int) =~= b.take(a.len() as int));
}

proof fn lemma_extends_all(a: Seq<FkModel>, b: Seq<FkModel>, c: Seq<FkModel>)
    requires
        extends(a, b),
        extends(b, c),
    ensures
        extends(a, c),
{
    assert(c.take(a.len() as int) =~= c.take(b.len() as int).take(a.len() as int));
}

proof fn lemma_patterns_extend(
    table: Seq<char>,
    columns: Seq<(Seq<char>, Seq<char>)>,
    rules: Seq<Option<FkRule>>,
    names: Names,
    so_far: Seq<FkModel>,
)
    ensures
        extends(so_far, references::pattern_refs(table, columns, rules, names, so_far)),
    decreases columns.len(),
{
    if columns.len() == 0 {
        assert(so_far.take(so_far.len() as int) =~= so_far);
    } else {
        lemma_patterns_extend(table, columns.drop_last(), rules, names, so_far);
        let before = references::pattern_refs(table, columns.drop_last(), rules, names, so_far);
        let after = references::pattern_refs(table, columns, rules, names, so_far);
        if after != before {
            lemma_extends_push(so_far, before, after.last());
        }
    }
}

proof fn lemma_localized_extend(
    columns: Seq<(Seq<char>, Seq<char>)>,
    names: Names,
    so_far: Seq<FkModel>,
)
    ensures
        extends(so_far, references::localized_refs(columns, names, so_far)),
        extends(so_far, references::stats_loca_refs(columns, names, so_far)),
    decreases columns.len(),
{
    if columns.len() == 0 {
        assert(so_far.take(so_far.len() as int) =~= so_far);
    } else {
        let d = columns.drop_last();
        lemma_localized_extend(d, names, so_far);
        let a = references::localized_refs(d, names, so_far);
        let b = references::stats_loca_refs(d, names, so_far);
        let fk = made(columns.last().0, "loca__english"@, "contentuid"@);
        lemma_extends_push(so_far, a, fk);
        lemma_extends_push(so_far, b, fk);
    }
}

proof fn lemma_specific_holds(
    table: Seq<char>,
    columns: Seq<(Seq<char>, Seq<char>)>,
    names: Names,
    k: int,
)
    requires
        0 <= k < columns.len(),
    ensures
        match fk_patterns::specific_target(table, columns[k].0) {
            Some(x) => names.target(x) matches Some(t) ==> references::specific_refs(
                table,
                columns,
                names,
            ).contains(made(columns[k].0, t, "UUID"@)),
            None => true,
        },
    decreases columns.len(),
{
    let d = columns.drop_last();
    let after = references::specific_refs(table, columns, names);
    let before = references::specific_refs(table, d, names);
    if k < d.len() {
        lemma_specific_holds(table, d, names, k);
        assert(d[k] == columns[k]);
        assert forall|x: FkModel| before.contains(x) implies #[trigger] after.contains(x) by {
            let i = choose|i: int| 0 <= i < before.len() && before[i] == x;
            assert(after[i] == x);
        }
    } else {
        assert(columns.last() == columns[k]);
        if after.len() > before.len() {
            assert(after[before.len() as int] == after.last());
        }
    }
}

spec fn from_specific(
    table: Seq<char>,
    columns: Seq<(Seq<char>, Seq<char>)>,
    names: Names,
    fk: FkModel,
) -> bool {
    exists|k: int|
        {
            &&& 0 <= k < columns.len()
            &&& (#[trigger] columns[k]).0 == fk.source_column
            &&& fk_patterns::specific_target(table, columns[k].0) is Some
            &&& names.target(fk_patterns::specific_target(table, columns[k].0)->0) == Some(
                fk.target_table,
            )
            &&& fk.target_column == "UUID"@
        }
}

proof fn lemma_specific_reasons(
    table: Seq<char>,
    columns: Seq<(Seq<char>, Seq<char>)>,
    names: Names,
)
    ensures
        forall|i: int|
            0 <= i < references::specific_refs(table, columns, names).len() ==> from_specific(
                table,
                columns,
                names,
                #[trigger] references::specific_refs(table, columns, names)[i],
            ),
    decreases columns.len(),
{
    if columns.len() > 0 {
        let d = columns.drop_last();
        lemma_specific_reasons(table, d, names);
        let before = references::specific_refs(table, d, names);
        let after = references::specific_refs(table, columns, names);
        let l = columns.len() - 1;
        assert(columns[l] == columns.last());
        assert forall|i: int| 0 <= i < after.len() implies from_specific(
            table,
            columns,
            names,
            #[trigger] after[i],
        ) by {
            if i < before.len() {
                assert(after[i] == before[i]);
                assert(from_specific(table, d, names, before[i]));
                let k = choose|k: int|
                    {
                        &&& 0 <= k < d.len()
                        &&& (#[trigger] d[k]).0 == before[i].source_column
                        &&& fk_patterns::specific_target(table, d[k].0) is Some
                        &&& names.target(fk_patterns::specific_target(table, d[k].0)->0) == Some(
                            before[i].target_table,
                        )
                        &&& before[i].target_column == "UUID"@
                    };
                assert(columns[k] == d[k]);
            } else {
                assert(columns[l].0 == after[i].source_column);
            }
        }
    }
}

proof fn lemma_rule_is_first(name: Seq<char>, bg3_type: Seq<char>, n: int)
    requires
        is_rule_for(name, bg3_type, n),
    ensures
        fk_patterns::rule_for(fk_patterns::found_in(name), bg3_type)
            == fk_patterns::rule_applied(fk_patterns::fk_rule(n), bg3_type),
{
    let found = fk_patterns::found_in(name);
    fk_patterns::lemma_first_found(found);
    assert(found[n]);
    match fk_patterns::first_found(found) {
        Some(i) => {
            if i < n {
                assert(found[i]);
                assert(!fk_patterns::regex_found(fk_patterns::fk_rule(i).pattern, name));
            }
            if n < i {
                assert(!found[n]);
            }
        },
        None => {},
    }
}

proof fn lemma_first_is_rule(name: Seq<char>, bg3_type: Seq<char>)
    requires
        bg3_type == "guid"@ || bg3_type == "FixedString"@,
        fk_patterns::rule_for(fk_patterns::found_in(name), bg3_type) is Some,
    ensures
        exists|n: int| #[trigger]
            is_rule_for(name, bg3_type, n) && fk_patterns::fk_rule(n) == fk_patterns::rule_for(
                fk_patterns::found_in(name),
                bg3_type,
            )->0,
{
    let found = fk_patterns::found_in(name);
    fk_patterns::lemma_first_found(found);
    let n = fk_patterns::first_found(found)->0;
    assert(found[n]);
    assert forall|m: int| 0 <= m < n implies !fk_patterns::regex_found(
        (#[trigger] fk_patterns::fk_rule(m)).pattern,
        name,
    ) by {
        assert(!found[m]);
    }
    assert(is_rule_for(name, bg3_type, n));
}

/// Whether a reference is one that a rule on column names makes of a column.
spec fn from_pattern(
    table: Seq<char>,
    columns: Seq<(Seq<char>, Seq<char>)>,
    rules: Seq<Option<FkRule>>,
    names: Names,
    fk: FkModel,
) -> bool {
    exists|k: int|
        {
            &&& 0 <= k < columns.len()
            &&& (#[trigger] columns[k]).0 == fk.source_column
            &&& references::key_typed(columns[k].1)
            &&& rules[k] is Some
            &&& references::rule_ref(table, columns[k].0, rules[k]->0, names) == Some(fk)
        }
}

proof fn lemma_pattern_reasons(
    table: Seq<char>,
    columns: Seq<(Seq<char>, Seq<char>)>,
    rules: Seq<Option<FkRule>>,
    names: Names,
    so_far: Seq<FkModel>,
)
    ensures
        ({
            let after = references::pattern_refs(table, columns, rules, names, so_far);
            forall|i: int|
                so_far.len() <= i < after.len() ==> from_pattern(
                    table,
                    columns,
                    rules,
                    names,
                    #[trigger] after[i],
                )
        }),
    decreases columns.len(),
{
    if columns.len() > 0 {
        let d = columns.drop_last();
        lemma_pattern_reasons(table, d, rules, names, so_far);
        let before = references::pattern_refs(table, d, rules, names, so_far);
        let after = references::pattern_refs(table, columns, rules, names, so_far);
        let l = columns.len() - 1;
        assert(columns[l] == columns.last());
        lemma_patterns_extend(table, d, rules, names, so_far);
        assert forall|i: int| so_far.len() <= i < after.len() implies from_pattern(
            table,
            columns,
            rules,
            names,
            #[trigger] after[i],
        ) by {
            if i < before.len() {
                assert(after[i] == before[i]);
                assert(from_pattern(table, d, rules, names, before[i]));
                let k = choose|k: int|
                    {
                        &&& 0 <= k < d.len()
                        &&& (#[trigger] d[k]).0 == before[i].source_column
                        &&& references::key_typed(d[k].1)
                        &&& rules[k] is Some
                        &&& references::rule_ref(table, d[k].0, rules[k]->0, names) == Some(
                            before[i],
                        )
                    };
                assert(columns[k] == d[k]);
            } else {
                assert(after[i].source_column == columns[l].0);
            }
        }
    }
}

proof fn lemma_pattern_holds(
    table: Seq<char>,
    columns: Seq<(Seq<char>, Seq<char>)>,
    rules: Seq<Option<FkRule>>,
    names: Names,
    so_far: Seq<FkModel>,
    k: int,
)
    requires
        0 <= k < columns.len(),
        textmap::distinct(columns),
        !references::referring(so_far, columns[k].0),
        references::key_typed(columns[k].1),
        rules[k] is Some,
        references::rule_ref(table, columns[k].0, rules[k]->0, names) is Some,
    ensures
        references::pattern_refs(table, columns, rules, names, so_far).contains(
            references::rule_ref(table, columns[k].0, rules[k]->0, names)->0,
        ),
    decreases columns.len(),
{
    let d = columns.drop_last();
    let before = references::pattern_refs(table, d, rules, names, so_far);
    let after = references::pattern_refs(table, columns, rules, names, so_far);
    if k < d.len() {
        assert(d[k] == columns[k]);
        assert forall|i: int, j: int| 0 <= i < j < d.len() implies #[trigger] d[i].0
            != #[trigger] d[j].0 by {
            assert(columns[i].0 != columns[j].0);
        }
        lemma_pattern_holds(table, d, rules, names, so_far, k);
        let x = references::rule_ref(table, columns[k].0, rules[k]->0, names)->0;
        let i = choose|i: int| 0 <= i < before.len() && before[i] == x;
        assert(after[i] == x);
    } else {
        assert(columns.last() == columns[k]);
        lemma_pattern_reasons(table, d, rules, names, so_far);
        lemma_patterns_extend(table, d, rules, names, so_far);
        assert(!references::referring(before, columns[k].0)) by {
            if references::referring(before, columns[k].0) {
                let i = choose|i: int|
                    0 <= i < before.len() && (#[trigger] before[i]).source_column == columns[k].0;
                if i < so_far.len() {
                    assert(so_far[i] == before.take(so_far.len() as int)[i]);
                    assert(so_far[i].source_column == columns[k].0);
                } else {
                    assert(from_pattern(table, d, rules, names, before[i]));
                    let m = choose|m: int|
                        {
                            &&& 0 <= m < d.len()
                            &&& (#[trigger] d[m]).0 == before[i].source_column
                            &&& references::key_typed(d[m].1)
                            &&& rules[m] is Some
                            &&& references::rule_ref(table, d[m].0, rules[m]->0, names) == Some(
                                before[i],
                            )
                        };
                    assert(columns[m].0 != columns[k].0);
                }
            }
        }
        assert(after[before.len() as int] == after.last());
    }
}

proof fn lemma_localized_holds(
    columns: Seq<(Seq<char>, Seq<char>)>,
    names: Names,
    so_far: Seq<FkModel>,
    k: int,
)
    requires
        0 <= k < columns.len(),
        names.target("loca__english"@) is Some,
    ensures
        columns[k].1 == "TranslatedString"@ ==> references::localized_refs(
            columns,
            names,
            so_far,
        ).contains(made(columns[k].0, "loca__english"@, "contentuid"@)),
        stats_text::loca_column(columns[k].0) ==> references::referring(
            references::stats_loca_refs(columns, names, so_far),
            columns[k].0,
        ),
    decreases columns.len(),
{
    let d = columns.drop_last();
    let a = references::localized_refs(d, names, so_far);
    let b = references::localized_refs(columns, names, so_far);
    let x = references::stats_loca_refs(d, names, so_far);
    let y = references::stats_loca_refs(columns, names, so_far);
    let fk = made(columns[k].0, "loca__english"@, "contentuid"@);
    if k < d.len() {
        assert(d[k] == columns[k]);
        lemma_localized_holds(d, names, so_far, k);
        if columns[k].1 == "TranslatedString"@ {
            let i = choose|i: int| 0 <= i < a.len() && a[i] == fk;
            assert(b[i] == fk);
        }
        if stats_text::loca_column(columns[k].0) {
            let i = choose|i: int|
                0 <= i < x.len() && (#[trigger] x[i]).source_column == columns[k].0;
            assert(y[i] == x[i]);
        }
    } else {
        assert(columns.last() == columns[k]);
        if columns[k].1 == "TranslatedString"@ {
            assert(b[a.len() as int] == fk);
        }
        if stats_text::loca_column(columns[k].0) {
            if !references::referring(x, columns[k].0) {
                assert(y[x.len() as int].source_column == columns[k].0);
            }
        }
    }
}

spec fn from_loca(columns: Seq<(Seq<char>, Seq<char>)>, fk: FkModel, translated: bool) -> bool {
    exists|k: int|
        {
            &&& 0 <= k < columns.len()
            &&& (#[trigger] columns[k]).0 == fk.source_column
            &&& if translated {
                columns[k].1 == "TranslatedString"@
            } else {
                stats_text::loca_column(columns[k].0)
            }
            &&& fk.target_table == "loca__english"@
            &&& fk.target_column == "contentuid"@
        }
}

proof fn lemma_loca_reasons(
    columns: Seq<(Seq<char>, Seq<char>)>,
    names: Names,
    so_far: Seq<FkModel>,
)
    ensures
        ({
            let a = references::localized_refs(columns, names, so_far);
            let b = references::stats_loca_refs(columns, names, so_far);
            &&& forall|i: int|
                so_far.len() <= i < a.len() ==> from_loca(columns, #[trigger] a[i], true)
            &&& forall|i: int|
                so_far.len() <= i < b.len() ==> from_loca(columns, #[trigger] b[i], false)
        }),
    decreases columns.len(),
{
    if columns.len() > 0 {
        let d = columns.drop_last();
        lemma_loca_reasons(d, names, so_far);
        lemma_localized_extend(d, names, so_far);
        let a = references::localized_refs(d, names, so_far);
        let b = references::stats_loca_refs(d, names, so_far);
        let a2 = references::localized_refs(columns, names, so_far);
        let b2 = references::stats_loca_refs(columns, names, so_far);
        let l = columns.len() - 1;
        assert(columns[l] == columns.last());
        assert forall|fk: FkModel, t: bool| #[trigger] from_loca(d, fk, t) implies from_loca(
            columns,
            fk,
            t,
        ) by {
            let k = choose|k: int|
                {
                    &&& 0 <= k < d.len()
                    &&& (#[trigger] d[k]).0 == fk.source_column
                    &&& if t {
                        d[k].1 == "TranslatedString"@
                    } else {
                        stats_text::loca_column(d[k].0)
                    }
                    &&& fk.target_table == "loca__english"@
                    &&& fk.target_column == "contentuid"@
                };
            assert(columns[k] == d[k]);
        }
        assert forall|i: int| so_far.len() <= i < a2.len() implies from_loca(
            columns,
            #[trigger] a2[i],
            true,
        ) by {
            if i < a.len() {
                assert(a2[i] == a[i]);
                assert(from_loca(d, a[i], true));
            } else {
                assert(columns[l].0 == a2[i].source_column);
            }
        }
        assert forall|i: int| so_far.len() <= i < b2.len() implies from_loca(
            columns,
            #[trigger] b2[i],
            false,
        ) by {
            if i < b.len() {
                assert(b2[i] == b[i]);
                assert(from_loca(d, b[i], false));
            } else {
                assert(columns[l].0 == b2[i].source_column);
            }
        }
    }
}

// ---------------------------------------------------------------------------
// All references of a table
// ---------------------------------------------------------------------------

/// The references of a table, as `compute_fk_constraints` gives them.
pub open spec fn computed(
    table: Seq<char>,
    columns: Seq<(Seq<char>, Seq<char>)>,
    node_id: Option<Seq<char>>,
    names: Names,
) -> Seq<FkModel> {
    references::references(table, columns, node_id, references::column_rules(columns), names)
}

spec fn stage(
    table: Seq<char>,
    columns: Seq<(Seq<char>, Seq<char>)>,
    node_id: Option<Seq<char>>,
    names: Names,
    n: int,
) -> Seq<FkModel> {
    let rules = references::column_rules(columns);
    let specific = references::specific_refs(table, columns, names);
    let object = references::object_ref(columns, node_id, names, specific);
    let patterned = references::pattern_refs(table, columns, rules, names, object);
    let localized = references::localized_refs(columns, names, patterned);
    let using = references::using_ref(table, columns, localized);
    if n == 0 {
        specific
    } else if n == 1 {
        object
    } else if n == 2 {
        patterned
    } else if n == 3 {
        localized
    } else {
        using
    }
}

proof fn lemma_stages(
    table: Seq<char>,
    columns: Seq<(Seq<char>, Seq<char>)>,
    node_id: Option<Seq<char>>,
    names: Names,
)
    ensures
        forall|n: int, x: FkModel|
            0 <= n <= 4 && #[trigger] stage(table, columns, node_id, names, n).contains(x)
                ==> computed(table, columns, node_id, names).contains(x),
        extends(
            stage(table, columns, node_id, names, 0),
            stage(table, columns, node_id, names, 1),
        ),
        extends(
            stage(table, columns, node_id, names, 1),
            stage(table, columns, node_id, names, 2),
        ),
        extends(
            stage(table, columns, node_id, names, 2),
            stage(table, columns, node_id, names, 3),
        ),
        extends(
            stage(table, columns, node_id, names, 3),
            stage(table, columns, node_id, names, 4),
        ),
        extends(
            stage(table, columns, node_id, names, 4),
            computed(table, columns, node_id, names),
        ),
{
    let rules = references::column_rules(columns);
    let s0 = stage(table, columns, node_id, names, 0);
    let s1 = stage(table, columns, node_id, names, 1);
    let s2 = stage(table, columns, node_id, names, 2);
    let s3 = stage(table, columns, node_id, names, 3);
    let s4 = stage(table, columns, node_id, names, 4);
    let all = computed(table, columns, node_id, names);
    assert(s0.take(s0.len() as int) =~= s0);
    assert(s1.take(s0.len() as int) =~= s0);
    lemma_patterns_extend(table, columns, rules, names, s1);
    lemma_localized_extend(columns, names, s2);
    assert(s3.take(s3.len() as int) =~= s3);
    assert(s4.take(s3.len() as int) =~= s3);
    assert(s4.take(s4.len() as int) =~= s4);
    lemma_localized_extend(columns, names, s4);
    lemma_extends_all(s3, s4, all);
    lemma_extends_all(s2, s3, all);
    lemma_extends_all(s1, s2, all);
    lemma_extends_all(s0, s1, all);
    lemma_extends_holds(s0, all);
    lemma_extends_holds(s1, all);
    lemma_extends_holds(s2, all);
    lemma_extends_holds(s3, all);
    lemma_extends_holds(s4, all);
    assert forall|n: int, x: FkModel|
        0 <= n <= 4 && #[trigger] stage(table, columns, node_id, names, n).contains(
            x,
        ) implies all.contains(x) by {
        if n == 0 {
            assert(s0.contains(x));
        } else if n == 1 {
            assert(s1.contains(x));
        } else if n == 2 {
            assert(s2.contains(x));
        } else if n == 3 {
            assert(s3.contains(x));
        } else {
            assert(s4.contains(x));
        }
    }
}

proof fn lemma_not_yet(
    table: Seq<char>,
    columns: Seq<(Seq<char>, Seq<char>)>,
    node_id: Option<Seq<char>>,
    names: Names,
    k: int,
)
    requires
        textmap::distinct(columns),
        0 <= k < columns.len(),
        fk_patterns::specific_target(table, columns[k].0) is None,
    ensures
        !references::referring(stage(table, columns, node_id, names, 0), columns[k].0),
        !has_own_rule(table, node_id, columns[k].0, columns[k].1) ==> !references::referring(
            stage(table, columns, node_id, names, 1),
            columns[k].0,
        ),
{
    let name = columns[k].0;
    let s0 = stage(table, columns, node_id, names, 0);
    let s1 = stage(table, columns, node_id, names, 1);
    lemma_specific_reasons(table, columns, names);
    if references::referring(s0, name) {
        let i = choose|i: int| 0 <= i < s0.len() && (#[trigger] s0[i]).source_column == name;
        assert(from_specific(table, columns, names, s0[i]));
    }
    if !has_own_rule(table, node_id, name, columns[k].1) && references::referring(s1, name) {
        let i = choose|i: int| 0 <= i < s1.len() && (#[trigger] s1[i]).source_column == name;
        if i < s0.len() {
            assert(s0[i] == s1[i]);
        } else {
            assert(s1[i].source_column == "Object"@);
            textmap::lemma_key_pos_is(columns, name, k);
        }
    }
}

/// Every column has the references that the rules give it: by a rule of its own, by the
/// node that it belongs to, by the first rule that its name matches, to the localized
/// texts, or to the entry that a stats entry builds on.
pub proof fn law_rules_make_references(
    table: Seq<char>,
    columns: Seq<(Seq<char>, Seq<char>)>,
    node_id: Option<Seq<char>>,
    names: Names,
    k: int,
)
    requires
        textmap::distinct(columns),
        0 <= k < columns.len(),
    ensures
        refers_by_rules(
            table,
            columns[k].0,
            columns[k].1,
            node_id,
            names.tables,
            names.renames,
            computed(table, columns, node_id, names),
        ),
{
    let name = columns[k].0;
    let ty = columns[k].1;
    let rules = references::column_rules(columns);
    let fks = computed(table, columns, node_id, names);
    let s0 = stage(table, columns, node_id, names, 0);
    let s1 = stage(table, columns, node_id, names, 1);
    let s2 = stage(table, columns, node_id, names, 2);
    let s3 = stage(table, columns, node_id, names, 3);
    let s4 = stage(table, columns, node_id, names, 4);
    lemma_stages(table, columns, node_id, names);
    textmap::lemma_key_pos_is(columns, name, k);
    assert forall|x: Seq<char>, t: Seq<char>|
        fk_patterns::specific_target(table, name) == Some(x) && #[trigger] is_target(
            names.tables,
            names.renames,
            x,
            t,
        ) implies fks.contains(made(name, t, "UUID"@)) by {
        lemma_target(names, x, t);
        lemma_specific_holds(table, columns, names, k);
        assert(s0.contains(made(name, t, "UUID"@)));
    }
    assert forall|x: Seq<char>, t: Seq<char>|
        name == "Object"@ && ty == "guid"@ && object_of(node_id) == Some(x)
            && fk_patterns::specific_target(table, name) is None && #[trigger] is_target(
            names.tables,
            names.renames,
            x,
            t,
        ) implies fks.contains(made(name, t, "UUID"@)) by {
        lemma_target(names, x, t);
        lemma_not_yet(table, columns, node_id, names, k);
        assert(s1 == s0.push(made(name, t, "UUID"@)));
        assert(s1[s0.len() as int] == made(name, t, "UUID"@));
        assert(s1.contains(made(name, t, "UUID"@)));
    }
    assert forall|n: int| #[trigger]
        is_rule_for(name, ty, n) && !has_own_rule(table, node_id, name, ty)
            && references::rule_ref(
            table,
            name,
            fk_patterns::fk_rule(n),
            names,
        ) is Some implies fks.contains(
        references::rule_ref(table, name, fk_patterns::fk_rule(n), names)->0,
    ) by {
        lemma_rule_is_first(name, ty, n);
        lemma_not_yet(table, columns, node_id, names, k);
        assert(rules[k] == Some(fk_patterns::fk_rule(n)));
        lemma_pattern_holds(table, columns, rules, names, s1, k);
        assert(s2.contains(references::rule_ref(table, name, fk_patterns::fk_rule(n), names)->0));
    }
    assert forall|n: int, t: Seq<char>|
        #[trigger] is_rule_for(name, ty, n) && refers_elsewhere(fk_patterns::fk_rule(n))
            && #[trigger] is_target(
            names.tables,
            names.renames,
            fk_patterns::fk_rule(n).target_table->0,
            t,
        ) && !has_own_rule(table, node_id, name, ty) implies fks.contains(
        made(name, t, fk_patterns::fk_rule(n).target_column->0),
    ) by {
        lemma_target(names, fk_patterns::fk_rule(n).target_table->0, t);
    }
    let loca = "loca__english"@;
    if textmap::has_key(names.tables, loca) && !textmap::has_key(names.renames, loca) {
        lemma_localized_holds(columns, names, s2, k);
        lemma_localized_holds(columns, names, s4, k);
        if ty == "TranslatedString"@ {
            assert(s3.contains(made(name, loca, "contentuid"@)));
        }
        if stats_text::loca_column(name) && "stats__"@.is_prefix_of(table) {
            assert(references::referring(fks, name));
        }
    }
    if name == "_using"@ && "stats__"@.is_prefix_of(table) {
        assert(s4[s3.len() as int] == made(name, table, "_entry_name"@));
        assert(s4.contains(made(name, table, "_entry_name"@)));
    }
}

/// Whether a reference of a table starts from one of its columns and has a reason.
pub open spec fn is_explained<T>(
    table: Seq<char>,
    columns: Seq<(Seq<char>, Seq<char>)>,
    node_id: Option<Seq<char>>,
    tables: Seq<(Seq<char>, T)>,
    renames: Seq<(Seq<char>, Seq<char>)>,
    fk: FkModel,
) -> bool {
    exists|k: int|
        0 <= k < columns.len() && has_reason(
            table,
            (#[trigger] columns[k]).0,
            columns[k].1,
            node_id,
            tables,
            renames,
            fk,
        )
}

/// No reference is without a reason: it starts from a column of the table, and a rule for
/// that column gives it. So it leads to the table that it stands in only where the rule
/// says so.
pub proof fn law_references_have_reasons(
    table: Seq<char>,
    columns: Seq<(Seq<char>, Seq<char>)>,
    node_id: Option<Seq<char>>,
    names: Names,
)
    ensures
        forall|i: int|
            0 <= i < computed(table, columns, node_id, names).len() ==> is_explained(
                table,
                columns,
                node_id,
                names.tables,
                names.renames,
                #[trigger] computed(table, columns, node_id, names)[i],
            ),
{
    let rules = references::column_rules(columns);
    let fks = computed(table, columns, node_id, names);
    let s0 = stage(table, columns, node_id, names, 0);
    let s1 = stage(table, columns, node_id, names, 1);
    let s2 = stage(table, columns, node_id, names, 2);
    let s3 = stage(table, columns, node_id, names, 3);
    let s4 = stage(table, columns, node_id, names, 4);
    lemma_stages(table, columns, node_id, names);
    lemma_specific_reasons(table, columns, names);
    lemma_pattern_reasons(table, columns, rules, names, s1);
    lemma_loca_reasons(columns, names, s2);
    lemma_loca_reasons(columns, names, s4);
    assert forall|i: int| 0 <= i < fks.len() implies is_explained(
        table,
        columns,
        node_id,
        names.tables,
        names.renames,
        #[trigger] fks[i],
    ) by {
        let fk = fks[i];
        if i < s4.len() {
            assert(s4[i] == fks.take(s4.len() as int)[i]);
        }
        if i < s3.len() {
            assert(s3[i] == s4.take(s3.len() as int)[i]);
        }
        if i < s2.len() {
            assert(s2[i] == s3.take(s2.len() as int)[i]);
        }
        if i < s1.len() {
            assert(s1[i] == s2.take(s1.len() as int)[i]);
        }
        if i < s0.len() {
            assert(s0[i] == s1.take(s0.len() as int)[i]);
            assert(from_specific(table, columns, names, s0[i]));
            let k = choose|k: int|
                {
                    &&& 0 <= k < columns.len()
                    &&& (#[trigger] columns[k]).0 == fk.source_column
                    &&& fk_patterns::specific_target(table, columns[k].0) is Some
                    &&& names.target(
                        fk_patterns::specific_target(table, columns[k].0)->0,
                    ) == Some(fk.target_table)
                    &&& fk.target_column == "UUID"@
                };
            lemma_target(
                names,
                fk_patterns::specific_target(table, columns[k].0)->0,
                fk.target_table,
            );
            assert(has_reason(
                table,
                columns[k].0,
                columns[k].1,
                node_id,
                names.tables,
                names.renames,
                fk,
            ));
        } else if i < s1.len() {
            let k = textmap::key_pos(columns, "Object"@)->0;
            textmap::lemma_key_pos(columns, "Object"@);
            lemma_target(names, object_of(node_id)->0, fk.target_table);
            assert(has_reason(
                table,
                columns[k].0,
                columns[k].1,
                node_id,
                names.tables,
                names.renames,
                fk,
            ));
        } else if i < s2.len() {
            assert(from_pattern(table, columns, rules, names, s2[i]));
            let k = choose|k: int|
                {
                    &&& 0 <= k < columns.len()
                    &&& (#[trigger] columns[k]).0 == fk.source_column
                    &&& references::key_typed(columns[k].1)
                    &&& rules[k] is Some
                    &&& references::rule_ref(table, columns[k].0, rules[k]->0, names) == Some(fk)
                };
            lemma_first_is_rule(columns[k].0, columns[k].1);
            let n = choose|n: int| #[trigger]
                is_rule_for(columns[k].0, columns[k].1, n) && fk_patterns::fk_rule(n)
                    == fk_patterns::rule_for(
                    fk_patterns::found_in(columns[k].0),
                    columns[k].1,
                )->0;
            assert(rules[k] == Some(fk_patterns::fk_rule(n)));
            if fk_patterns::fk_rule(n).target_table is Some {
                lemma_target(names, fk_patterns::fk_rule(n).target_table->0, fk.target_table);
            }
            assert(has_reason(
                table,
                columns[k].0,
                columns[k].1,
                node_id,
                names.tables,
                names.renames,
                fk,
            ));
        } else if i < s3.len() {
            assert(from_loca(columns, s3[i], true));
            let k = choose|k: int|
                {
                    &&& 0 <= k < columns.len()
                    &&& (#[trigger] columns[k]).0 == fk.source_column
                    &&& columns[k].1 == "TranslatedString"@
                    &&& fk.target_table == "loca__english"@
                    &&& fk.target_column == "contentuid"@
                };
            assert(has_reason(
                table,
                columns[k].0,
                columns[k].1,
                node_id,
                names.tables,
                names.renames,
                fk,
            ));
        } else if i < s4.len() {
            let k = textmap::key_pos(columns, "_using"@)->0;
            textmap::lemma_key_pos(columns, "_using"@);
            assert(has_reason(
                table,
                columns[k].0,
                columns[k].1,
                node_id,
                names.tables,
                names.renames,
                fk,
            ));
        } else {
            assert(from_loca(columns, fks[i], false));
            let k = choose|k: int|
                {
                    &&& 0 <= k < columns.len()
                    &&& (#[trigger] columns[k]).0 == fk.source_column
                    &&& stats_text::loca_column(columns[k].0)
                    &&& fk.target_table == "loca__english"@
                    &&& fk.target_column == "contentuid"@
                };
            assert(has_reason(
                table,
                columns[k].0,
                columns[k].1,
                node_id,
                names.tables,
                names.renames,
                fk,
            ));
        }
    }
}

proof fn lemma_targets_of_keys<A, B>(
    a: Seq<(Seq<char>, A)>,
    b: Seq<(Seq<char>, B)>,
    renames: Seq<(Seq<char>, Seq<char>)>,
    name: Seq<char>,
    t: Seq<char>,
)
    requires
        a.len() == b.len(),
        forall|i: int| 0 <= i < a.len() ==> (#[trigger] a[i]).0 == b[i].0,
    ensures
        is_target(a, renames, name, t) <==> is_target(b, renames, name, t),
{
    schema_laws::lemma_same_keys(a, b, t);
    schema_laws::lemma_same_keys(a, b, present_name(renames, name));
}

proof fn lemma_column_of_raw(columns: Seq<(Seq<char>, Seq<char>)>, pk: PkStrategy)
    ensures
        forall|i: int|
            0 <= i < schema_build::data_columns(columns, pk).len() ==> is_raw(
                columns,
                #[trigger] schema_build::data_columns(columns, pk)[i],
            ),
    decreases columns.len(),
{
    if columns.len() > 0 {
        let d = columns.drop_last();
        lemma_column_of_raw(d, pk);
        let before = schema_build::data_columns(d, pk);
        let after = schema_build::data_columns(columns, pk);
        let l = columns.len() - 1;
        assert(columns[l] == columns.last());
        assert forall|i: int| 0 <= i < after.len() implies is_raw(columns, #[trigger] after[i]) by {
            if i < before.len() {
                assert(after[i] == before[i]);
                assert(is_raw(d, before[i]));
                let k = choose|k: int|
                    0 <= k < d.len() && (#[trigger] d[k]).0 == before[i].name && d[k].1
                        == before[i].bg3_type;
                assert(columns[k] == d[k]);
            } else {
                assert(columns[l].0 == after[i].name && columns[l].1 == after[i].bg3_type);
            }
        }
    }
}

/// Whether a column of a table is one that was seen, with its type.
pub open spec fn is_raw(columns: Seq<(Seq<char>, Seq<char>)>, c: ColumnModel) -> bool {
    exists|k: int|
        0 <= k < columns.len() && (#[trigger] columns[k]).0 == c.name && columns[k].1 == c.bg3_type
}

/// The columns of a table of the schema were all seen, each with its type.
pub proof fn lemma_table_column(d: DiscoveryModel, i: int, c: int)
    requires
        0 <= i < schema_build::schema_of(d).tables.len(),
        0 <= c < schema_build::schema_of(d).tables[i].1.columns.len(),
    ensures
        is_raw(
            schema_build::final_names(d).tables[i].1.columns,
            schema_build::schema_of(d).tables[i].1.columns[c],
        ),
{
    let names = schema_build::final_names(d);
    let p = names.tables[i];
    let t = schema_build::schema_of(d).tables[i].1;
    let data = schema_build::data_columns(p.1.columns, t.pk_strategy);
    let before = order::rank::<ColumnDef>();
    let sorted = order::stable_sort(data, before);
    order::lemma_sorted_from(data, before);
    schema_laws::lemma_kept_columns(sorted);
    lemma_column_of_raw(p.1.columns, t.pk_strategy);
    assert(t.columns[c] == schema_build::without_doubles(sorted)[c]);
    let k = choose|k: int| 0 <= k < sorted.len() && sorted[k] == t.columns[c];
    assert(data.contains(sorted[k]));
    let m = choose|m: int| 0 <= m < data.len() && data[m] == sorted[k];
    assert(is_raw(p.1.columns, data[m]));
}

/// In the schema of any files each data column of a table has the references that the
/// rules give it, each to the present table that the rule means: a column that matches a
/// rule for races refers to the races, whichever table it stands in.
pub proof fn law_schema_columns_refer(files: Seq<DiscoveryModel>, i: int, c: int)
    requires
        0 <= i < schema_build::schema_of(schema_build::all_seen(files)).tables.len(),
        0 <= c < schema_build::schema_of(
            schema_build::all_seen(files),
        ).tables[i].1.columns.len(),
        textmap::distinct(
            schema_build::final_names(schema_build::all_seen(files)).tables[i].1.columns,
        ),
    ensures
        ({
            let s = schema_build::schema_of(schema_build::all_seen(files));
            let t = s.tables[i].1;
            refers_by_rules(
                s.tables[i].0,
                t.columns[c].name,
                t.columns[c].bg3_type,
                t.node_id,
                s.tables,
                s.renames,
                t.fk_constraints,
            )
        }),
{
    let d = schema_build::all_seen(files);
    let s = schema_build::schema_of(d);
    let names = schema_build::final_names(d);
    let p = names.tables[i];
    let t = s.tables[i].1;
    assert(s.tables[i] == (p.0, schema_build::table_of(names, p.0, p.1)));
    lemma_table_column(d, i, c);
    let k = choose|k: int|
        0 <= k < p.1.columns.len() && (#[trigger] p.1.columns[k]).0 == t.columns[c].name
            && p.1.columns[k].1 == t.columns[c].bg3_type;
    law_rules_make_references(p.0, p.1.columns, p.1.node_id, names, k);
    let name = t.columns[c].name;
    let ty = t.columns[c].bg3_type;
    assert forall|x: Seq<char>, y: Seq<char>| #[trigger]
        is_target(s.tables, s.renames, x, y) implies is_target(
        names.tables,
        names.renames,
        x,
        y,
    ) by {
        lemma_targets_of_keys(names.tables, s.tables, names.renames, x, y);
    }
    schema_laws::lemma_same_keys(names.tables, s.tables, "loca__english"@);
}

/// In the schema of any files every reference of a table starts from a column that was
/// seen, and a rule for that column gives it.
pub proof fn law_schema_references_have_reasons(files: Seq<DiscoveryModel>, i: int, f: int)
    requires
        0 <= i < schema_build::schema_of(schema_build::all_seen(files)).tables.len(),
        0 <= f < schema_build::schema_of(
            schema_build::all_seen(files),
        ).tables[i].1.fk_constraints.len(),
    ensures
        ({
            let s = schema_build::schema_of(schema_build::all_seen(files));
            let names = schema_build::final_names(schema_build::all_seen(files));
            is_explained(
                s.tables[i].0,
                names.tables[i].1.columns,
                s.tables[i].1.node_id,
                names.tables,
                s.renames,
                s.tables[i].1.fk_constraints[f],
            )
        }),
{
    let d = schema_build::all_seen(files);
    let names = schema_build::final_names(d);
    let p = names.tables[i];
    let s = schema_build::schema_of(d);
    assert(s.tables[i] == (p.0, schema_build::table_of(names, p.0, p.1)));
    law_references_have_reasons(p.0, p.1.columns, p.1.node_id, names);
    assert(s.tables[i].1.fk_constraints[f] == computed(
        p.0,
        p.1.columns,
        p.1.node_id,
        names,
    )[f]);
}

} // verus!
