//! What holds of the rows that are filled from nodes and entries.

use vstd::prelude::*;
use crate::discovery_laws;
use crate::insert;
use crate::insert::Pairs;
use crate::row_fill;
use crate::rows;
use crate::rows::PlanModel;
use crate::schema::{ColumnModel, PkStrategy, SchemaModel, TableModel};
use crate::sql;
use crate::stats_parse::StatsModel;
use crate::stats_text;
use crate::text;
use crate::textmap;
use crate::types;
use crate::types::SqlModel;

verus! {

// ---------------------------------------------------------------------------
// Plans
// ---------------------------------------------------------------------------

/// Whether a plan has a place of its own for the key, the file, the source and each column.
pub open spec fn places_apart(plan: PlanModel) -> bool {
    &&& plan.file_id_idx < plan.width
    &&& plan.source_id_idx matches Some(s) ==> s < plan.width && s != plan.file_id_idx
    &&& plan.pk_idx matches Some(k) ==> k < plan.width && k != plan.file_id_idx && Some(k)
        != plan.source_id_idx
    &&& forall|a: Seq<char>| #[trigger]
        textmap::has_key(plan.col_map, a) ==> {
            let p = textmap::value_of(plan.col_map, a)->0;
            &&& p < plan.width
            &&& p != plan.file_id_idx
            &&& Some(p) != plan.source_id_idx
            &&& Some(p) == plan.pk_idx ==> a == plan.pk_col_lower
        }
    &&& forall|a: Seq<char>, b: Seq<char>| #[trigger]
        textmap::has_key(plan.col_map, a) && #[trigger] textmap::has_key(plan.col_map, b) && a != b
            ==> textmap::value_of(plan.col_map, a) != textmap::value_of(plan.col_map, b)
}

/// Whether a plan inserts these columns of a table, and has the places of all of them.
pub open spec fn inserts(
    name: Seq<char>,
    t: TableModel,
    plan: PlanModel,
    columns: Seq<Seq<char>>,
) -> bool {
    let keyed = t.pk_strategy != PkStrategy::Rowid;
    &&& plan.sql == sql::insert_sql(name, columns)
    &&& plan.width == columns.len()
    &&& columns[plan.file_id_idx as int] == "_file_id"@
    &&& keyed ==> {
        &&& plan.pk_idx matches Some(k) && columns[k as int] == t.pk_strategy.key_column()
        &&& plan.source_id_idx matches Some(s) && columns[s as int] == "_SourceID"@
        &&& plan.pk_col_lower == text::ascii_lowered(t.pk_strategy.key_column())
    }
    &&& !keyed ==> plan.pk_idx is None && plan.source_id_idx is None
    &&& forall|i: int|
        0 <= i < t.columns.len() && !(keyed && text::ascii_lowered((#[trigger] t.columns[i]).name)
            == text::ascii_lowered(t.pk_strategy.key_column())) ==> {
            &&& textmap::value_of(plan.col_map, text::ascii_lowered(t.columns[i].name)) matches Some(
                p,
            ) && columns[p as int] == t.columns[i].name
        }
    &&& forall|i: int|
        0 <= i < t.fk_constraints.len() ==> plan.fk_cols.contains(
            text::ascii_lowered((#[trigger] t.fk_constraints[i]).source_column),
        )
}

/// Whether no two columns differ in nothing but the case of their letters.
pub open spec fn told_apart(columns: Seq<ColumnModel>) -> bool {
    forall|i: int, j: int|
        0 <= i < j < columns.len() ==> text::ascii_lowered((#[trigger] columns[i]).name)
            != text::ascii_lowered((#[trigger] columns[j]).name)
}

spec fn planned(t: TableModel, k: int) -> bool {
    let cols = rows::plan_columns(t, k);
    let keyed = t.pk_strategy != PkStrategy::Rowid;
    let lead = if keyed {
        3int
    } else {
        1int
    };
    let key = text::ascii_lowered(t.pk_strategy.key_column());
    &&& lead <= cols.0.len() <= lead + k
    &&& cols.0[if keyed {
        1int
    } else {
        0int
    }] == "_file_id"@
    &&& keyed ==> cols.0[0] == t.pk_strategy.key_column() && cols.0[2] == "_SourceID"@
    &&& keyed ==> textmap::value_of(cols.1, key) == Some(0usize)
    &&& forall|a: Seq<char>| #[trigger]
        textmap::has_key(cols.1, a) ==> {
            let p = textmap::value_of(cols.1, a)->0;
            &&& p < cols.0.len()
            &&& p >= lead || (keyed && a == key && p == 0)
            &&& p >= lead ==> text::ascii_lowered(cols.0[p as int]) == a
            &&& p >= lead ==> !(keyed && a == key)
        }
    &&& forall|i: int|
        0 <= i < k && !rows::is_key_column(t, (#[trigger] t.columns[i]).name) ==> {
            textmap::value_of(cols.1, text::ascii_lowered(t.columns[i].name)) matches Some(p)
                && cols.0[p as int] == t.columns[i].name
        }
}

proof fn lemma_planned(t: TableModel, k: int)
    requires
        t.has_file_id,
        told_apart(t.columns),
        0 <= k <= t.columns.len(),
        t.columns.len() + 4 <= usize::MAX,
    ensures
        planned(t, k),
    decreases k,
{
    let cols = rows::plan_columns(t, k);
    let keyed = t.pk_strategy != PkStrategy::Rowid;
    let key = text::ascii_lowered(t.pk_strategy.key_column());
    if k <= 0 {
        if keyed {
            textmap::lemma_key_pos_is(cols.1, key, 0);
            assert forall|a: Seq<char>| #[trigger] textmap::has_key(cols.1, a) implies a == key by {
                textmap::lemma_key_pos(cols.1, a);
            }
        } else {
            assert forall|a: Seq<char>| !(#[trigger] textmap::has_key(cols.1, a)) by {
                textmap::lemma_key_pos(cols.1, a);
            }
        }
    } else {
        lemma_planned(t, k - 1);
        let before = rows::plan_columns(t, k - 1);
        let name = t.columns[k - 1].name;
        let lower = text::ascii_lowered(name);
        if !rows::is_key_column(t, name) {
            let n = before.0.len() as usize;
            discovery_laws::lemma_set(before.1, lower, n, lower);
            discovery_laws::lemma_set(before.1, lower, n, key);
            assert(n == before.0.len());
            assert forall|a: Seq<char>| #[trigger] textmap::has_key(cols.1, a) implies {
                let p = textmap::value_of(cols.1, a)->0;
                let lead = if keyed {
                    3int
                } else {
                    1int
                };
                &&& p < cols.0.len()
                &&& p >= lead || (keyed && a == key && p == 0)
                &&& p >= lead ==> text::ascii_lowered(cols.0[p as int]) == a
                &&& p >= lead ==> !(keyed && a == key)
            } by {
                discovery_laws::lemma_set(before.1, lower, n, a);
                if a != lower {
                    assert(textmap::has_key(before.1, a));
                }
            }
            assert forall|i: int|
                0 <= i < k && !rows::is_key_column(t, (#[trigger] t.columns[i]).name) implies {
                textmap::value_of(cols.1, text::ascii_lowered(t.columns[i].name)) matches Some(p)
                    && cols.0[p as int] == t.columns[i].name
            } by {
                if i < k - 1 {
                    let l = text::ascii_lowered(t.columns[i].name);
                    assert(l != lower);
                    discovery_laws::lemma_set(before.1, lower, n, l);
                    assert(textmap::has_key(before.1, l));
                }
            }
        }
    }
}

/// The plan of a table inserts its key, its file, its source and all its columns, and
/// knows where each of them stands.
pub proof fn law_plans_place_columns(name: Seq<char>, t: TableModel)
    requires
        t.has_file_id,
        told_apart(t.columns),
        t.columns.len() + 4 <= usize::MAX,
    ensures
        places_apart(rows::plan_of(name, t)),
        exists|columns: Seq<Seq<char>>| #[trigger]
            inserts(name, t, rows::plan_of(name, t), columns),
{
    let plan = rows::plan_of(name, t);
    let n = t.columns.len() as int;
    lemma_planned(t, n);
    let columns = rows::plan_columns(t, n).0;
    let keyed = t.pk_strategy != PkStrategy::Rowid;
    assert forall|i: int| 0 <= i < t.fk_constraints.len() implies plan.fk_cols.contains(
        text::ascii_lowered((#[trigger] t.fk_constraints[i]).source_column),
    ) by {
        assert(plan.fk_cols[i] == text::ascii_lowered(t.fk_constraints[i].source_column));
    }
    assert forall|i: int|
        0 <= i < t.columns.len() && !(keyed && text::ascii_lowered((#[trigger] t.columns[i]).name)
            == text::ascii_lowered(t.pk_strategy.key_column())) implies {
        textmap::value_of(plan.col_map, text::ascii_lowered(t.columns[i].name)) matches Some(p)
            && columns[p as int] == t.columns[i].name
    } by {
        assert(!rows::is_key_column(t, t.columns[i].name));
    }
    assert(inserts(name, t, plan, columns));
    assert forall|a: Seq<char>, b: Seq<char>| #[trigger]
        textmap::has_key(plan.col_map, a) && #[trigger] textmap::has_key(plan.col_map, b) && a
            != b implies textmap::value_of(plan.col_map, a) != textmap::value_of(
        plan.col_map,
        b,
    ) by {}
}

// ---------------------------------------------------------------------------
// Rows of nodes
// ---------------------------------------------------------------------------

/// Whether a value stands for no reference.
pub open spec fn is_nothing(value: Seq<char>) -> bool {
    ||| value.len() == 0
    ||| value == "00000000-0000-0000-0000-000000000000"@
    ||| value == "ls::TranslatedStringRepository::s_HandleUnknown"@
    ||| value == "EMPTY"@
    ||| value == "NO_LEVELTEMPLATE_TRANSFER"@
}

/// What is stored of an attribute.
pub open spec fn stored(
    refers: bool,
    a: (Seq<char>, Seq<char>, Seq<char>),
) -> SqlModel {
    if (refers || a.1 == "TranslatedString"@) && is_nothing(a.2) {
        SqlModel::Null
    } else {
        types::coerced(a.2, a.1)
    }
}

/// Whether no column stands twice among values.
pub open spec fn once_each(attrs: Seq<(Seq<char>, Seq<char>, Seq<char>)>) -> bool {
    forall|i: int, j: int|
        0 <= i < j < attrs.len() ==> (#[trigger] attrs[i]).0 != (#[trigger] attrs[j]).0
}

/// Whether a column stands nowhere among values.
pub open spec fn is_missing(
    attrs: Seq<(Seq<char>, Seq<char>, Seq<char>)>,
    column: Seq<char>,
) -> bool {
    forall|i: int| 0 <= i < attrs.len() ==> (#[trigger] attrs[i]).0 != column
}

proof fn lemma_put(
    row: Seq<SqlModel>,
    plan: PlanModel,
    written: Seq<char>,
    v: SqlModel,
    column: Seq<char>,
)
    requires
        places_apart(plan),
        row.len() == plan.width,
    ensures
        ({
            let r = row_fill::put_column(row, plan, written, v);
            &&& r.len() == plan.width
            &&& r[plan.file_id_idx as int] == row[plan.file_id_idx as int]
            &&& plan.source_id_idx matches Some(s) ==> r[s as int] == row[s as int]
            &&& plan.pk_idx matches Some(k) ==> (written != plan.pk_col_lower ==> r[k as int]
                == row[k as int])
            &&& textmap::value_of(plan.col_map, column) matches Some(p) ==> r[p as int] == if written
                == column {
                v
            } else {
                row[p as int]
            }
        }),
{
    if textmap::has_key(plan.col_map, written) {
        assert(textmap::value_of(plan.col_map, written) is Some);
        if textmap::has_key(plan.col_map, column) {
            assert(textmap::value_of(plan.col_map, column) is Some);
        }
    }
}

proof fn lemma_attr_places(
    row: Seq<SqlModel>,
    plan: PlanModel,
    attrs: Seq<(Seq<char>, Seq<char>, Seq<char>)>,
    column: Seq<char>,
)
    requires
        places_apart(plan),
        row.len() == plan.width,
        once_each(attrs),
    ensures
        ({
            let r = row_fill::with_attrs(row, plan, attrs);
            &&& r.len() == plan.width
            &&& r[plan.file_id_idx as int] == row[plan.file_id_idx as int]
            &&& plan.source_id_idx matches Some(s) ==> r[s as int] == row[s as int]
            &&& plan.pk_idx matches Some(k) ==> r[k as int] == row[k as int]
            &&& textmap::value_of(plan.col_map, column) matches Some(p) ==> (Some(p) != plan.pk_idx ==> {
                &&& is_missing(attrs, column) ==> r[p as int] == row[p as int]
                &&& forall|i: int|
                    0 <= i < attrs.len() && (#[trigger] attrs[i]).0 == column && row[p as int] is Null
                        && !(plan.pk_idx is Some && column == plan.pk_col_lower) ==> r[p as int]
                        == stored(plan.fk_cols.contains(column), attrs[i])
            })
        }),
    decreases attrs.len(),
{
    if attrs.len() > 0 {
        let d = attrs.drop_last();
        let a = attrs.last();
        assert(once_each(d)) by {
            assert forall|i: int, j: int| 0 <= i < j < d.len() implies (#[trigger] d[i]).0
                != (#[trigger] d[j]).0 by {
                assert(attrs[i].0 != attrs[j].0);
            }
        }
        lemma_attr_places(row, plan, d, column);
        let before = row_fill::with_attrs(row, plan, d);
        let r = row_fill::with_attrs(row, plan, attrs);
        assert(attrs[attrs.len() - 1] == a);
        lemma_put(before, plan, a.0, types::coerced(a.2, a.1), column);
        assert(is_missing(attrs, column) ==> is_missing(d, column)) by {
            assert forall|i: int|
                0 <= i < d.len() && is_missing(attrs, column) implies (#[trigger] d[i]).0
                != column by {
                assert(d[i] == attrs[i]);
            }
        }
        if textmap::has_key(plan.col_map, column) && Some(
            textmap::value_of(plan.col_map, column)->0,
        ) != plan.pk_idx {
            let p = textmap::value_of(plan.col_map, column)->0;
            assert forall|i: int|
                0 <= i < attrs.len() && (#[trigger] attrs[i]).0 == column && row[p as int] is Null
                    && !(plan.pk_idx is Some && column == plan.pk_col_lower) implies r[p as int]
                == stored(plan.fk_cols.contains(column), attrs[i]) by {
                if i < d.len() {
                    assert(d[i] == attrs[i]);
                    assert(attrs[i].0 != attrs[attrs.len() - 1].0);
                } else {
                    assert(is_missing(d, column)) by {
                        assert forall|j: int| 0 <= j < d.len() implies (#[trigger] d[j]).0
                            != column by {
                            assert(attrs[j].0 != attrs[attrs.len() - 1].0);
                        }
                    }
                }
            }
        }
    }
}

proof fn lemma_found(attrs: Seq<(Seq<char>, Seq<char>, Seq<char>)>, column: Seq<char>)
    ensures
        is_missing(attrs, column) <==> row_fill::found_value(attrs, column) is None,
        forall|i: int|
            0 <= i < attrs.len() && (#[trigger] attrs[i]).0 == column && once_each(attrs)
                ==> row_fill::found_value(attrs, column) == Some(attrs[i].2),
    decreases attrs.len(),
{
    if attrs.len() > 0 {
        let d = attrs.drop_first();
        lemma_found(d, column);
        if attrs[0].0 != column {
            assert forall|i: int| 0 < i < attrs.len() implies #[trigger] attrs[i] == d[i - 1] by {}
            if is_missing(d, column) {
                assert forall|i: int| 0 <= i < attrs.len() implies (#[trigger] attrs[i]).0
                    != column by {}
            }
            if is_missing(attrs, column) {
                assert forall|i: int| 0 <= i < d.len() implies (#[trigger] d[i]).0 != column by {
                    assert(attrs[i + 1] == d[i]);
                }
            }
            if once_each(attrs) {
                assert forall|i: int, j: int| 0 <= i < j < d.len() implies (#[trigger] d[i]).0
                    != (#[trigger] d[j]).0 by {
                    assert(attrs[i + 1].0 != attrs[j + 1].0);
                }
            }
        } else {
            assert forall|i: int|
                0 <= i < attrs.len() && (#[trigger] attrs[i]).0 == column && once_each(
                    attrs,
                ) implies row_fill::found_value(attrs, column) == Some(attrs[i].2) by {
                if i > 0 {
                    assert(attrs[0].0 != attrs[i].0);
                }
            }
        }
    }
}

/// The row of a node holds each of its values in the place of its column, with its file,
/// its source and its key; all else is left open. A node without a key gets a made one.
pub proof fn law_node_row_holds_values(
    plan: PlanModel,
    attrs: Seq<(Seq<char>, Seq<char>, Seq<char>)>,
    file_id: i64,
    source_id: i64,
    next_key: u64,
    column: Seq<char>,
)
    requires
        places_apart(plan),
        once_each(attrs),
    ensures
        ({
            let r = row_fill::node_row(plan, attrs, file_id, source_id, next_key);
            &&& r.values.len() == plan.width
            &&& r.values[plan.file_id_idx as int] == SqlModel::Integer(file_id as int)
            &&& plan.source_id_idx matches Some(s) ==> r.values[s as int] == SqlModel::Integer(
                source_id as int,
            )
            &&& plan.pk_idx is None ==> r.key is None && !r.made
            &&& plan.pk_idx matches Some(k) ==> {
                &&& r.key is Some
                &&& r.values[k as int] == SqlModel::Text(r.key->0)
                &&& r.made <==> is_missing(attrs, plan.pk_col_lower)
                &&& r.made ==> r.key->0 == "_row_id_"@ + text::decimal(next_key as nat)
                &&& forall|i: int|
                    0 <= i < attrs.len() && (#[trigger] attrs[i]).0 == plan.pk_col_lower ==> r.key->0
                        == attrs[i].2
            }
            &&& textmap::value_of(plan.col_map, column) matches Some(p) ==> (Some(p) != plan.pk_idx
                && !(plan.pk_idx is Some && column == plan.pk_col_lower) ==> {
                &&& is_missing(attrs, column) ==> r.values[p as int] is Null
                &&& forall|i: int|
                    0 <= i < attrs.len() && (#[trigger] attrs[i]).0 == column ==> r.values[p as int]
                        == stored(plan.fk_cols.contains(column), attrs[i])
            })
        }),
{
    let key = row_fill::key_of(plan, attrs, next_key);
    let head = row_fill::headed_row(plan, file_id, source_id, text::or_empty(key));
    assert(head.len() == plan.width);
    if textmap::has_key(plan.col_map, column) {
        assert(textmap::value_of(plan.col_map, column) is Some);
    }
    lemma_attr_places(head, plan, attrs, column);
    lemma_found(attrs, plan.pk_col_lower);
}

// ---------------------------------------------------------------------------
// Rows of entries
// ---------------------------------------------------------------------------

/// Whether a field of an entry fills a column: that of its name, or that of the version of
/// a localized text.
pub open spec fn fills(field: (Seq<char>, Seq<char>), column: Seq<char>) -> bool {
    column == text::ascii_lowered(field.0) || (stats_text::loca_column(field.0)
        && field.1.contains(';') && column == text::ascii_lowered(field.0) + "_version"@)
}

/// What a column holds after a field filled it.
pub open spec fn filled(
    refers: bool,
    field: (Seq<char>, Seq<char>),
    column: Seq<char>,
    before: SqlModel,
) -> SqlModel {
    let q = text::char_at_or_end(field.1, ';', 0);
    let localized = stats_text::loca_column(field.0);
    if column == text::ascii_lowered(field.0) {
        let value = if localized {
            field.1.take(q)
        } else {
            field.1
        };
        if (localized || refers) && is_nothing(value) {
            before
        } else {
            SqlModel::Text(value)
        }
    } else {
        row_fill::version_value(field.1.skip(q + 1))
    }
}

proof fn lemma_semicolon(s: Seq<char>)
    ensures
        s.contains(';') <==> text::char_at_or_end(s, ';', 0) < s.len(),
        !s.contains(';') ==> s.take(text::char_at_or_end(s, ';', 0)) == s,
{
    text::lemma_char_at_or_end(s, ';', 0);
    let q = text::char_at_or_end(s, ';', 0);
    if s.contains(';') {
        let i = choose|i: int| 0 <= i < s.len() && s[i] == ';';
        assert(s[i] == ';');
    } else {
        assert(s.take(q) =~= s);
    }
}

proof fn lemma_version_apart(s: Seq<char>)
    ensures
        s + "_version"@ != s,
{
    reveal_strlit("_version");
    assert((s + "_version"@).len() == s.len() + 8);
}

/// A field of an entry fills its own columns, and changes no other.
pub proof fn law_field_fills_its_columns(
    row: Seq<SqlModel>,
    plan: PlanModel,
    sources: Seq<Seq<char>>,
    field: (Seq<char>, Seq<char>),
    column: Seq<char>,
)
    requires
        places_apart(plan),
        row.len() == plan.width,
    ensures
        ({
            let r = row_fill::with_field(row, plan, sources, field);
            &&& r.len() == row.len()
            &&& textmap::value_of(plan.col_map, column) matches Some(p) ==> {
                &&& fills(field, column) ==> r[p as int] == filled(
                    sources.contains(field.0),
                    field,
                    column,
                    row[p as int],
                )
                &&& !fills(field, column) ==> r[p as int] == row[p as int]
            }
            &&& r[plan.file_id_idx as int] == row[plan.file_id_idx as int]
            &&& plan.source_id_idx matches Some(s) ==> r[s as int] == row[s as int]
        }),
{
    lemma_semicolon(field.1);
    let own = text::ascii_lowered(field.0);
    lemma_version_apart(own);
    let q = text::char_at_or_end(field.1, ';', 0);
    let version = row_fill::version_value(field.1.skip(q + 1));
    lemma_put(row, plan, own, SqlModel::Text(field.1), column);
    lemma_put(row, plan, own, SqlModel::Text(field.1.take(q)), column);
    let handled = row_fill::put_reference(row, plan, own, field.1.take(q));
    lemma_put(handled, plan, own + "_version"@, version, column);
}

proof fn lemma_fields_apart(
    row: Seq<SqlModel>,
    plan: PlanModel,
    sources: Seq<Seq<char>>,
    fields: Seq<(Seq<char>, Seq<char>)>,
    column: Seq<char>,
    i: int,
)
    requires
        places_apart(plan),
        row.len() == plan.width,
        -1 <= i < fields.len(),
        forall|j: int| 0 <= j < fields.len() && j != i ==> !fills(#[trigger] fields[j], column),
        i >= 0 ==> fills(fields[i], column),
    ensures
        ({
            let r = row_fill::with_fields(row, plan, sources, fields);
            &&& r.len() == row.len()
            &&& textmap::value_of(plan.col_map, column) matches Some(p) ==> {
                &&& i >= 0 ==> r[p as int] == filled(
                    sources.contains(fields[i].0),
                    fields[i],
                    column,
                    row[p as int],
                )
                &&& i < 0 ==> r[p as int] == row[p as int]
            }
            &&& r[plan.file_id_idx as int] == row[plan.file_id_idx as int]
            &&& plan.source_id_idx matches Some(s) ==> r[s as int] == row[s as int]
        }),
    decreases fields.len(),
{
    if fields.len() > 0 {
        let d = fields.drop_last();
        let n = d.len() as int;
        let before = row_fill::with_fields(row, plan, sources, d);
        assert(fields[n] == fields.last());
        assert forall|j: int| 0 <= j < d.len() && j != i implies !fills(
            #[trigger] d[j],
            column,
        ) by {
            assert(d[j] == fields[j]);
        }
        if i == n {
            lemma_fields_apart(row, plan, sources, d, column, -1);
        } else {
            if i >= 0 {
                assert(d[i] == fields[i]);
            }
            lemma_fields_apart(row, plan, sources, d, column, i);
        }
        law_field_fills_its_columns(before, plan, sources, fields.last(), column);
    }
}

/// The row of an entry holds its type, what it uses and each of its fields in the places of
/// their columns, with its file and its source.
pub proof fn law_entry_row_holds_fields(
    plan: PlanModel,
    sources: Seq<Seq<char>>,
    entry: StatsModel,
    file_id: i64,
    source_id: i64,
    column: Seq<char>,
    i: int,
)
    requires
        places_apart(plan),
        -1 <= i < entry.data.len(),
        forall|j: int|
            0 <= j < entry.data.len() && j != i ==> !fills(#[trigger] entry.data[j], column),
        i >= 0 ==> fills(entry.data[i], column) && column != "_type"@ && column != "_using"@,
    ensures
        ({
            let r = row_fill::stats_row(plan, sources, entry, file_id, source_id);
            &&& r.len() == plan.width
            &&& r[plan.file_id_idx as int] == SqlModel::Integer(file_id as int)
            &&& plan.source_id_idx matches Some(s) ==> r[s as int] == SqlModel::Integer(
                source_id as int,
            )
            &&& textmap::value_of(plan.col_map, column) matches Some(p) ==> (Some(p) != plan.pk_idx ==> {
                &&& i >= 0 ==> r[p as int] == filled(
                    sources.contains(entry.data[i].0),
                    entry.data[i],
                    column,
                    SqlModel::Null,
                )
                &&& i < 0 && column == "_type"@ ==> r[p as int] == SqlModel::Text(entry.entry_type)
                &&& i < 0 && column == "_using"@ ==> r[p as int] == match entry.entry_using {
                    Some(u) => if is_nothing(u) {
                        SqlModel::Null
                    } else {
                        SqlModel::Text(u)
                    },
                    None => SqlModel::Null,
                }
                &&& i < 0 && column != "_type"@ && column != "_using"@ ==> r[p as int] is Null
            })
            &&& i < 0 && Some(column) == (if plan.pk_idx is Some {
                Some(plan.pk_col_lower)
            } else {
                None
            }) && textmap::value_of(plan.col_map, column) == plan.pk_idx && column != "_type"@
                && column != "_using"@ ==> r[plan.pk_idx->0 as int] == SqlModel::Text(
                entry.entry_name,
            )
        }),
{
    reveal_strlit("_type");
    reveal_strlit("_using");
    assert("_type"@.len() == 5 && "_using"@.len() == 6);
    let headed = row_fill::headed_row(plan, file_id, source_id, entry.entry_name);
    let typed = row_fill::put_column(headed, plan, "_type"@, SqlModel::Text(entry.entry_type));
    let based = match entry.entry_using {
        Some(u) => row_fill::put_reference(typed, plan, "_using"@, u),
        None => typed,
    };
    if textmap::has_key(plan.col_map, column) {
        assert(textmap::value_of(plan.col_map, column) is Some);
    }
    lemma_put(headed, plan, "_type"@, SqlModel::Text(entry.entry_type), column);
    if entry.entry_using is Some {
        lemma_put(typed, plan, "_using"@, SqlModel::Text(entry.entry_using->0), column);
    }
    lemma_fields_apart(based, plan, sources, entry.data, column, i);
}

// ---------------------------------------------------------------------------
// Rows without a plan
// ---------------------------------------------------------------------------

/// Whether a value stands beside a column.
pub open spec fn pairs_with(p: Pairs, column: Seq<char>, value: SqlModel) -> bool {
    exists|k: int|
        0 <= k < p.columns.len() && k < p.values.len() && #[trigger] p.columns[k] == column
            && p.values[k] == value
}

/// A reference as it is stored: nothing where it stands for none.
pub open spec fn stored_reference(value: Seq<char>) -> SqlModel {
    if is_nothing(value) {
        SqlModel::Null
    } else {
        SqlModel::Text(value)
    }
}

/// Whether a field stands among columns and values: a localized field with its handle and
/// its version, a reference where it refers to something, any other as it is.
pub open spec fn has_field(p: Pairs, refers: bool, field: (Seq<char>, Seq<char>)) -> bool {
    let q = text::char_at_or_end(field.1, ';', 0);
    let localized = stats_text::loca_column(field.0);
    &&& localized ==> pairs_with(p, field.0, stored_reference(field.1.take(q)))
    &&& localized && q < field.1.len() ==> pairs_with(
        p,
        field.0 + "_version"@,
        row_fill::version_value(field.1.skip(q + 1)),
    )
    &&& !localized && refers ==> pairs_with(p, field.0, stored_reference(field.1))
    &&& !localized && !refers ==> pairs_with(p, field.0, SqlModel::Text(field.1))
}

spec fn extends(p: Pairs, r: Pairs) -> bool {
    &&& p.columns.len() == p.values.len()
    &&& r.columns.len() == r.values.len()
    &&& p.columns.len() <= r.columns.len()
    &&& forall|k: int|
        0 <= k < p.columns.len() ==> #[trigger] r.columns[k] == p.columns[k] && r.values[k]
            == p.values[k]
}

proof fn lemma_pairs_stay(p: Pairs, r: Pairs, column: Seq<char>, value: SqlModel)
    requires
        extends(p, r),
        pairs_with(p, column, value),
    ensures
        pairs_with(r, column, value),
{
    let k = choose|k: int|
        0 <= k < p.columns.len() && k < p.values.len() && #[trigger] p.columns[k] == column
            && p.values[k] == value;
    assert(r.columns[k] == column);
}

proof fn lemma_field_pairs(p: Pairs, sources: Seq<Seq<char>>, field: (Seq<char>, Seq<char>))
    requires
        p.columns.len() == p.values.len(),
    ensures
        extends(p, insert::paired_field(p, sources, field)),
        has_field(insert::paired_field(p, sources, field), sources.contains(field.0), field),
{
    lemma_semicolon(field.1);
    let r = insert::paired_field(p, sources, field);
    let n = p.columns.len() as int;
    assert(r.columns[n] == field.0);
    if r.columns.len() > n + 1 {
        assert(r.columns[n + 1] == field.0 + "_version"@);
    }
}

proof fn lemma_fields_pairs(
    p: Pairs,
    sources: Seq<Seq<char>>,
    fields: Seq<(Seq<char>, Seq<char>)>,
)
    requires
        p.columns.len() == p.values.len(),
    ensures
        extends(p, insert::paired_fields(p, sources, fields)),
        forall|i: int|
            0 <= i < fields.len() ==> has_field(
                insert::paired_fields(p, sources, fields),
                sources.contains((#[trigger] fields[i]).0),
                fields[i],
            ),
    decreases fields.len(),
{
    if fields.len() > 0 {
        let d = fields.drop_last();
        let before = insert::paired_fields(p, sources, d);
        let r = insert::paired_fields(p, sources, fields);
        lemma_fields_pairs(p, sources, d);
        lemma_field_pairs(before, sources, fields.last());
        assert forall|k: int| 0 <= k < p.columns.len() implies #[trigger] r.columns[k]
            == p.columns[k] && r.values[k] == p.values[k] by {
            assert(before.columns[k] == p.columns[k]);
        }
        assert forall|i: int| 0 <= i < fields.len() implies has_field(
            r,
            sources.contains((#[trigger] fields[i]).0),
            fields[i],
        ) by {
            if i < d.len() {
                let f = d[i];
                assert(f == fields[i]);
                assert(has_field(before, sources.contains(f.0), f));
                let q = text::char_at_or_end(f.1, ';', 0);
                if stats_text::loca_column(f.0) {
                    lemma_pairs_stay(before, r, f.0, stored_reference(f.1.take(q)));
                    if q < f.1.len() {
                        lemma_pairs_stay(
                            before,
                            r,
                            f.0 + "_version"@,
                            row_fill::version_value(f.1.skip(q + 1)),
                        );
                    }
                } else if sources.contains(f.0) {
                    lemma_pairs_stay(before, r, f.0, stored_reference(f.1));
                } else {
                    lemma_pairs_stay(before, r, f.0, SqlModel::Text(f.1));
                }
            }
        }
    }
}

/// The statement for an entry gives its name, its file, its type and what it uses, and a
/// value for each of its fields.
pub proof fn law_entry_statement_holds_fields(e: StatsModel, file_id: i64, schema: SchemaModel)
    ensures
        ({
            let p = insert::entry_pairs(e, file_id, schema);
            let s = insert::entry_statement(e, file_id, schema);
            let sources = insert::table_sources(schema, e.table_name);
            &&& s.sql == sql::insert_sql(e.table_name, p.columns)
            &&& s.params == p.values
            &&& p.columns.len() == p.values.len()
            &&& pairs_with(p, "_entry_name"@, SqlModel::Text(e.entry_name))
            &&& pairs_with(p, "_file_id"@, SqlModel::Integer(file_id as int))
            &&& pairs_with(p, "_type"@, SqlModel::Text(e.entry_type))
            &&& e.entry_using is None ==> pairs_with(p, "_using"@, SqlModel::Null)
            &&& e.entry_using matches Some(u) ==> pairs_with(p, "_using"@, stored_reference(u))
            &&& forall|i: int|
                0 <= i < e.data.len() ==> has_field(
                    p,
                    sources.contains((#[trigger] e.data[i]).0),
                    e.data[i],
                )
        }),
{
    let p = insert::entry_pairs(e, file_id, schema);
    let sources = insert::table_sources(schema, e.table_name);
    let base = Pairs {
        columns: seq!["_entry_name"@, "_file_id"@, "_type"@, "_using"@],
        values: seq![
            SqlModel::Text(e.entry_name),
            SqlModel::Integer(file_id as int),
            SqlModel::Text(e.entry_type),
            match e.entry_using {
                Some(u) => rows::reference_value(u),
                None => SqlModel::Null,
            },
        ],
    };
    lemma_fields_pairs(base, sources, e.data);
    assert(p.columns[0] == base.columns[0]);
    assert(p.columns[1] == base.columns[1]);
    assert(p.columns[2] == base.columns[2]);
    assert(p.columns[3] == base.columns[3]);
}

/// Whether an attribute stands among columns and values under a column of the table that
/// SQLite does not tell from its name.
pub open spec fn has_attr(
    p: Pairs,
    t: TableModel,
    a: (Seq<char>, Seq<char>, Seq<char>),
) -> bool {
    exists|c: int|
        {
            &&& 0 <= c < t.columns.len()
            &&& text::ascii_lowered((#[trigger] t.columns[c]).name) == text::ascii_lowered(a.0)
            &&& pairs_with(
                p,
                t.columns[c].name,
                stored(refers(t, t.columns[c].name), a),
            )
        }
}

/// Whether a column of a table refers to another table.
pub open spec fn refers(t: TableModel, column: Seq<char>) -> bool {
    exists|i: int|
        0 <= i < t.fk_constraints.len() && (#[trigger] t.fk_constraints[i]).source_column == column
}

proof fn lemma_column_named(columns: Seq<ColumnModel>, name: Seq<char>)
    ensures
        match insert::column_named(columns, name) {
            Some(column) => exists|c: int|
                0 <= c < columns.len() && (#[trigger] columns[c]).name == column
                    && text::ascii_lowered(column) == text::ascii_lowered(name),
            None => forall|c: int|
                0 <= c < columns.len() ==> text::ascii_lowered((#[trigger] columns[c]).name)
                    != text::ascii_lowered(name),
        },
    decreases columns.len(),
{
    if columns.len() > 0 {
        let d = columns.drop_first();
        lemma_column_named(d, name);
        if text::ascii_lowered(columns[0].name) == text::ascii_lowered(name) {
            assert(columns[0].name == insert::column_named(columns, name)->0);
        } else {
            match insert::column_named(d, name) {
                Some(column) => {
                    let c = choose|c: int|
                        0 <= c < d.len() && (#[trigger] d[c]).name == column
                            && text::ascii_lowered(column) == text::ascii_lowered(name);
                    assert(columns[c + 1] == d[c]);
                },
                None => {
                    assert forall|c: int| 0 <= c < columns.len() implies text::ascii_lowered(
                        (#[trigger] columns[c]).name,
                    ) != text::ascii_lowered(name) by {
                        if c > 0 {
                            assert(columns[c] == d[c - 1]);
                        }
                    }
                },
            }
        }
    }
}

proof fn lemma_sources(t: TableModel, column: Seq<char>)
    ensures
        text::listed(rows::sources_of(t.fk_constraints), column) <==> refers(t, column),
{
    let s = rows::sources_of(t.fk_constraints);
    if refers(t, column) {
        let i = choose|i: int|
            0 <= i < t.fk_constraints.len() && (#[trigger] t.fk_constraints[i]).source_column
                == column;
        assert(s[i] == column);
    }
    if s.contains(column) {
        let i = choose|i: int| 0 <= i < s.len() && s[i] == column;
        assert(t.fk_constraints[i].source_column == column);
    }
}

proof fn lemma_attr_pairs(p: Pairs, t: TableModel, a: (Seq<char>, Seq<char>, Seq<char>))
    requires
        p.columns.len() == p.values.len(),
    ensures
        extends(p, insert::paired_attr(p, t, a)),
        !rows::is_key_column(t, a.0) && schema_has(t, a.0) ==> has_attr(
            insert::paired_attr(p, t, a),
            t,
            a,
        ),
{
    let r = insert::paired_attr(p, t, a);
    lemma_column_named(t.columns, a.0);
    if !rows::is_key_column(t, a.0) && schema_has(t, a.0) {
        let i = choose|i: int|
            0 <= i < t.columns.len() && text::ascii_lowered((#[trigger] t.columns[i]).name)
                == text::ascii_lowered(a.0);
        let column = insert::column_named(t.columns, a.0)->0;
        let c = choose|c: int|
            0 <= c < t.columns.len() && (#[trigger] t.columns[c]).name == column
                && text::ascii_lowered(column) == text::ascii_lowered(a.0);
        lemma_sources(t, column);
        let n = p.columns.len() as int;
        assert(r.columns[n] == column);
        assert(r.values[n] == stored(refers(t, column), a));
        assert(pairs_with(r, column, stored(refers(t, column), a)));
        assert(t.columns[c].name == column);
    }
}

/// Whether a table has a column that SQLite does not tell from a name.
pub open spec fn schema_has(t: TableModel, name: Seq<char>) -> bool {
    exists|i: int|
        0 <= i < t.columns.len() && text::ascii_lowered((#[trigger] t.columns[i]).name)
            == text::ascii_lowered(name)
}

proof fn lemma_attrs_pairs(
    p: Pairs,
    t: TableModel,
    attrs: Seq<(Seq<char>, Seq<char>, Seq<char>)>,
)
    requires
        p.columns.len() == p.values.len(),
    ensures
        extends(p, insert::paired_attrs(p, t, attrs)),
        forall|i: int|
            0 <= i < attrs.len() && !rows::is_key_column(t, (#[trigger] attrs[i]).0) && schema_has(
                t,
                attrs[i].0,
            ) ==> has_attr(insert::paired_attrs(p, t, attrs), t, attrs[i]),
    decreases attrs.len(),
{
    if attrs.len() > 0 {
        let d = attrs.drop_last();
        let before = insert::paired_attrs(p, t, d);
        let r = insert::paired_attrs(p, t, attrs);
        lemma_attrs_pairs(p, t, d);
        lemma_attr_pairs(before, t, attrs.last());
        assert forall|k: int| 0 <= k < p.columns.len() implies #[trigger] r.columns[k]
            == p.columns[k] && r.values[k] == p.values[k] by {
            assert(before.columns[k] == p.columns[k]);
        }
        assert forall|i: int|
            0 <= i < attrs.len() && !rows::is_key_column(t, (#[trigger] attrs[i]).0) && schema_has(
                t,
                attrs[i].0,
            ) implies has_attr(r, t, attrs[i]) by {
            if i < d.len() {
                let a = d[i];
                assert(a == attrs[i]);
                let c = choose|c: int|
                    {
                        &&& 0 <= c < t.columns.len()
                        &&& text::ascii_lowered((#[trigger] t.columns[c]).name)
                            == text::ascii_lowered(a.0)
                        &&& pairs_with(
                            before,
                            t.columns[c].name,
                            stored(refers(t, t.columns[c].name), a),
                        )
                    };
                lemma_pairs_stay(
                    before,
                    r,
                    t.columns[c].name,
                    stored(refers(t, t.columns[c].name), a),
                );
                assert(t.columns[c].name == t.columns[c].name);
            }
        }
    }
}

/// The statement for a node gives its file, its key and a value for each attribute that
/// the table has a column for.
pub proof fn law_node_statement_holds_attributes(
    t: TableModel,
    attrs: Seq<(Seq<char>, Seq<char>, Seq<char>)>,
    file_id: i64,
    next_key: u64,
)
    ensures
        ({
            let p = insert::node_pairs(t, attrs, file_id, next_key);
            let keyed = t.pk_strategy != PkStrategy::Rowid;
            let key = t.pk_strategy.key_column();
            &&& p.columns.len() == p.values.len()
            &&& t.has_file_id ==> pairs_with(p, "_file_id"@, SqlModel::Integer(file_id as int))
            &&& keyed ==> (insert::node_key(t, attrs, next_key) matches Some(k) && pairs_with(
                p,
                key,
                SqlModel::Text(k),
            ))
            &&& !keyed ==> insert::node_key(t, attrs, next_key) is None
            &&& forall|i: int|
                0 <= i < attrs.len() && !(keyed && text::ascii_lowered((#[trigger] attrs[i]).0)
                    == text::ascii_lowered(key)) && schema_has(t, attrs[i].0) ==> has_attr(
                    p,
                    t,
                    attrs[i],
                )
        }),
{
    let none = Pairs { columns: Seq::empty(), values: Seq::empty() };
    let filed = if t.has_file_id {
        insert::paired(none, "_file_id"@, SqlModel::Integer(file_id as int))
    } else {
        none
    };
    let keyed = match insert::node_key(t, attrs, next_key) {
        Some(k) => insert::paired(filed, t.pk_strategy.key_column(), SqlModel::Text(k)),
        None => filed,
    };
    let p = insert::node_pairs(t, attrs, file_id, next_key);
    lemma_attrs_pairs(keyed, t, attrs);
    if t.has_file_id {
        assert(keyed.columns[0] == "_file_id"@);
        assert(p.columns[0] == keyed.columns[0]);
    }
    if insert::node_key(t, attrs, next_key) is Some {
        let n = filed.columns.len() as int;
        assert(keyed.columns[n] == t.pk_strategy.key_column());
        assert(p.columns[n] == keyed.columns[n]);
    }
    assert forall|i: int|
        0 <= i < attrs.len() && !(t.pk_strategy != PkStrategy::Rowid && text::ascii_lowered(
            (#[trigger] attrs[i]).0,
        ) == text::ascii_lowered(t.pk_strategy.key_column())) && schema_has(
            t,
            attrs[i].0,
        ) implies has_attr(p, t, attrs[i]) by {
        assert(!rows::is_key_column(t, attrs[i].0));
    }
}

} // verus!
