//! What holds of the kinds of nodes that are inferred from entries.

use vstd::prelude::*;
use crate::infer;
use crate::infer::{AttrSchema, AttrSchemaModel, ChildSchema, ChildSchemaModel, NodeSchemaModel,
    TallyModel};
use crate::models::{AttributeModel, EntryModel, GroupModel, SectionModel};
use crate::order;
use crate::text;
use crate::textmap;

verus! {

// ---------------------------------------------------------------------------
// Groups of children
// ---------------------------------------------------------------------------

/// Whether one of the groups has a name.
pub open spec fn has_group(groups: Seq<GroupModel>, id: Seq<char>) -> bool {
    exists|k: int| 0 <= k < groups.len() && (#[trigger] groups[k]).group_id == id
}

/// The number of entries of a kind that have a group of a name.
pub open spec fn entries_with_group(entries: Seq<EntryModel>, kind: Seq<char>, id: Seq<char>) -> nat
    decreases entries.len(),
{
    if entries.len() == 0 {
        0
    } else {
        let e = entries.last();
        entries_with_group(entries.drop_last(), kind, id) + (if e.node_id == kind && has_group(
            e.children,
            id,
        ) {
            1nat
        } else {
            0
        })
    }
}

/// The groups of the entries of a kind, one entry after the other.
pub open spec fn groups_in(entries: Seq<EntryModel>, kind: Seq<char>) -> Seq<GroupModel>
    decreases entries.len(),
{
    if entries.len() == 0 {
        Seq::empty()
    } else {
        let e = entries.last();
        groups_in(entries.drop_last(), kind) + (if e.node_id == kind {
            e.children
        } else {
            Seq::empty()
        })
    }
}

/// The kind of the first child of the first group of a name that has children.
pub open spec fn first_kind(groups: Seq<GroupModel>, id: Seq<char>) -> Option<Seq<char>>
    decreases groups.len(),
{
    if groups.len() == 0 {
        None
    } else {
        let before = first_kind(groups.drop_last(), id);
        let g = groups.last();
        if before is None && g.group_id == id && g.entries.len() > 0 {
            Some(g.entries[0].node_id)
        } else {
            before
        }
    }
}

/// Whether tallies are those of the groups of entries of a kind and of some groups of
/// one more entry.
spec fn tallied(
    seen: Seq<TallyModel>,
    entries: Seq<EntryModel>,
    kind: Seq<char>,
    part: Seq<GroupModel>,
) -> bool {
    &&& forall|i: int, j: int|
        0 <= i < j < seen.len() ==> (#[trigger] seen[i]).group_id != (#[trigger] seen[j]).group_id
    &&& forall|i: int|
        0 <= i < seen.len() ==> (#[trigger] seen[i]).count == entries_with_group(
            entries,
            kind,
            seen[i].group_id,
        ) + (if has_group(part, seen[i].group_id) {
            1nat
        } else {
            0
        })
    &&& forall|i: int|
        0 <= i < seen.len() ==> (#[trigger] seen[i]).count > 0 && seen[i].child == first_kind(
            groups_in(entries, kind) + part,
            seen[i].group_id,
        )
    &&& forall|id: Seq<char>|
        #![trigger entries_with_group(entries, kind, id)]
        #![trigger has_group(part, id)]
        entries_with_group(entries, kind, id) > 0 || has_group(part, id) ==> has_tally(seen, id)
}

spec fn has_tally(seen: Seq<TallyModel>, id: Seq<char>) -> bool {
    exists|i: int| 0 <= i < seen.len() && (#[trigger] seen[i]).group_id == id
}

proof fn lemma_group_place(seen: Seq<TallyModel>, id: Seq<char>, from: int)
    requires
        0 <= from <= seen.len(),
    ensures
        ({
            let at = infer::group_place(seen, id, from);
            &&& from <= at <= seen.len()
            &&& at < seen.len() ==> seen[at].group_id == id
            &&& forall|k: int| from <= k < at ==> (#[trigger] seen[k]).group_id != id
        }),
    decreases seen.len() - from,
{
    if from < seen.len() && seen[from].group_id != id {
        lemma_group_place(seen, id, from + 1);
    }
}

proof fn lemma_no_kind_without_group(groups: Seq<GroupModel>, id: Seq<char>)
    requires
        !has_group(groups, id),
    ensures
        first_kind(groups, id) is None,
    decreases groups.len(),
{
    if groups.len() > 0 {
        let d = groups.drop_last();
        if has_group(d, id) {
            let k = choose|k: int| 0 <= k < d.len() && (#[trigger] d[k]).group_id == id;
            assert(groups[k].group_id == id);
        }
        lemma_no_kind_without_group(d, id);
        assert(groups[groups.len() - 1].group_id != id);
    }
}

proof fn lemma_group_of_entry(entries: Seq<EntryModel>, kind: Seq<char>, id: Seq<char>)
    ensures
        has_group(groups_in(entries, kind), id) <==> entries_with_group(entries, kind, id) > 0,
        entries_with_group(entries, kind, id) <= entries.len(),
    decreases entries.len(),
{
    if entries.len() > 0 {
        let d = entries.drop_last();
        let e = entries.last();
        lemma_group_of_entry(d, kind, id);
        if e.node_id == kind {
            lemma_group_of_either(groups_in(d, kind), e.children, id);
        } else {
            assert(groups_in(d, kind) + Seq::<GroupModel>::empty() =~= groups_in(d, kind));
        }
    }
}

proof fn lemma_group_of_either(a: Seq<GroupModel>, b: Seq<GroupModel>, id: Seq<char>)
    ensures
        has_group(a + b, id) <==> has_group(a, id) || has_group(b, id),
{
    let s = a + b;
    if has_group(a, id) {
        let k = choose|k: int| 0 <= k < a.len() && (#[trigger] a[k]).group_id == id;
        assert(s[k].group_id == id);
    }
    if has_group(b, id) {
        let k = choose|k: int| 0 <= k < b.len() && (#[trigger] b[k]).group_id == id;
        assert(s[a.len() + k].group_id == id);
    }
    if has_group(s, id) {
        let k = choose|k: int| 0 <= k < s.len() && (#[trigger] s[k]).group_id == id;
        if k < a.len() {
            assert(a[k].group_id == id);
        } else {
            assert(b[k - a.len()].group_id == id);
        }
    }
}

proof fn lemma_more_groups(groups: Seq<GroupModel>, g: GroupModel, id: Seq<char>)
    ensures
        has_group(groups.push(g), id) <==> has_group(groups, id) || g.group_id == id,
{
    let s = groups.push(g);
    if has_group(groups, id) {
        let k = choose|k: int| 0 <= k < groups.len() && (#[trigger] groups[k]).group_id == id;
        assert(s[k].group_id == id);
    }
    if g.group_id == id {
        assert(s[groups.len() as int].group_id == id);
    }
    if has_group(s, id) {
        let k = choose|k: int| 0 <= k < s.len() && (#[trigger] s[k]).group_id == id;
        if k < groups.len() {
            assert(groups[k].group_id == id);
        }
    }
}

proof fn lemma_tally_group(
    seen: Seq<TallyModel>,
    entries: Seq<EntryModel>,
    kind: Seq<char>,
    part: Seq<GroupModel>,
    g: GroupModel,
)
    requires
        tallied(seen, entries, kind, part),
        entries.len() < u64::MAX,
    ensures
        tallied(
            infer::group_seen(seen, g, has_group(part, g.group_id)),
            entries,
            kind,
            part.push(g),
        ),
{
    let id = g.group_id;
    let again = has_group(part, id);
    let at = infer::group_place(seen, id, 0);
    let after = infer::group_seen(seen, g, again);
    let more = part.push(g);
    lemma_group_place(seen, id, 0);
    let old_groups = groups_in(entries, kind) + part;
    let new_groups = groups_in(entries, kind) + more;
    assert(new_groups.drop_last() =~= old_groups);
    assert(new_groups.last() == g);
    lemma_more_groups(part, g, id);
    lemma_group_of_entry(entries, kind, id);
    lemma_group_of_either(groups_in(entries, kind), part, id);
    if at == seen.len() {
        assert(!has_tally(seen, id));
        assert(entries_with_group(entries, kind, id) == 0);
        assert(!again);
        lemma_no_kind_without_group(old_groups, id);
    }
    assert forall|i: int| 0 <= i < after.len() implies (#[trigger] after[i]).count
        == entries_with_group(entries, kind, after[i].group_id) + (if has_group(
        more,
        after[i].group_id,
    ) {
        1nat
    } else {
        0
    }) && after[i].count > 0 && after[i].child == first_kind(new_groups, after[i].group_id) by {
        lemma_more_groups(part, g, after[i].group_id);
        if i < seen.len() {
            assert(seen[i].group_id == after[i].group_id);
            lemma_group_of_entry(entries, kind, seen[i].group_id);
            if i == at {
                assert(seen[at].count <= entries.len() + 1);
            } else {
                assert(seen[i].group_id != id) by {
                    if seen[i].group_id == id && at < seen.len() {
                        if i < at {
                            assert(seen[i].group_id != seen[at].group_id);
                        } else {
                            assert(seen[at].group_id != seen[i].group_id);
                        }
                    }
                }
            }
        }
    }
    assert forall|x: Seq<char>|
        #![trigger entries_with_group(entries, kind, x)]
        #![trigger has_group(more, x)]
        entries_with_group(entries, kind, x) > 0 || has_group(more, x) implies has_tally(
        after,
        x,
    ) by {
        lemma_more_groups(part, g, x);
        if x == id {
            if at < seen.len() {
                assert(after[at].group_id == x);
            } else {
                assert(after[seen.len() as int].group_id == x);
            }
        } else {
            assert(has_tally(seen, x));
            let i = choose|i: int| 0 <= i < seen.len() && (#[trigger] seen[i]).group_id == x;
            assert(after[i].group_id == x);
        }
    }
    assert forall|i: int, j: int| 0 <= i < j < after.len() implies (#[trigger] after[i]).group_id
        != (#[trigger] after[j]).group_id by {
        assert(after[i].group_id == seen[i].group_id);
        if j < seen.len() {
            assert(after[j].group_id == seen[j].group_id);
        }
    }
}

proof fn lemma_tally_groups(
    seen: Seq<TallyModel>,
    entries: Seq<EntryModel>,
    kind: Seq<char>,
    groups: Seq<GroupModel>,
)
    requires
        tallied(seen, entries, kind, Seq::empty()),
        entries.len() < u64::MAX,
    ensures
        tallied(infer::groups_seen(seen, groups), entries, kind, groups),
    decreases groups.len(),
{
    if groups.len() == 0 {
        assert(groups =~= Seq::<GroupModel>::empty());
    } else {
        let d = groups.drop_last();
        lemma_tally_groups(seen, entries, kind, d);
        lemma_tally_group(infer::groups_seen(seen, d), entries, kind, d, groups.last());
        assert(d.push(groups.last()) =~= groups);
        assert(infer::names_group(d, groups.last().group_id) == has_group(
            d,
            groups.last().group_id,
        ));
    }
}

proof fn lemma_tallies(entries: Seq<(Seq<char>, EntryModel)>, kind: Seq<char>)
    requires
        entries.len() <= u64::MAX,
    ensures
        tallied(
            infer::groups_of(infer::entries_of_kind(entries, kind)),
            only_entries(entries),
            kind,
            Seq::empty(),
        ),
    decreases entries.len(),
{
    let none = Seq::<GroupModel>::empty();
    let es = only_entries(entries);
    if entries.len() > 0 {
        let d = entries.drop_last();
        let e = entries.last().1;
        lemma_tallies(d, kind);
        let ds = only_entries(d);
        assert(es.drop_last() =~= ds);
        let before = infer::entries_of_kind(d, kind);
        let seen = infer::groups_of(before);
        if e.node_id == kind {
            lemma_tally_groups(seen, ds, kind, e.children);
            assert(before.push(e).drop_last() =~= before);
            let after = infer::groups_of(infer::entries_of_kind(entries, kind));
            assert(after == infer::groups_seen(seen, e.children));
            assert(groups_in(es, kind) + none =~= groups_in(ds, kind) + e.children);
            assert forall|id: Seq<char>|
                #![trigger entries_with_group(es, kind, id)]
                #![trigger has_group(none, id)]
                entries_with_group(es, kind, id) > 0 || has_group(none, id) implies has_tally(
                after,
                id,
            ) by {
                assert(entries_with_group(ds, kind, id) > 0 || has_group(e.children, id));
            }
        } else {
            assert(groups_in(es, kind) + none =~= groups_in(ds, kind) + none);
            assert forall|id: Seq<char>|
                #![trigger entries_with_group(es, kind, id)]
                #![trigger has_group(none, id)]
                entries_with_group(es, kind, id) > 0 || has_group(none, id) implies has_tally(
                seen,
                id,
            ) by {
                assert(entries_with_group(ds, kind, id) > 0);
            }
        }
    } else {
        assert(es.len() == 0);
    }
}

/// Entries without the keys that they are found by.
pub open spec fn only_entries(entries: Seq<(Seq<char>, EntryModel)>) -> Seq<EntryModel> {
    entries.map_values(|p: (Seq<char>, EntryModel)| p.1)
}

proof fn lemma_children_order()
    ensures
        order::orders(order::rank::<ChildSchema>()),
{
    let before = order::rank::<ChildSchema>();
    assert forall|a: ChildSchemaModel, b: ChildSchemaModel| #[trigger] before(a, b) implies !before(
        b,
        a,
    ) by {
        if a.count == b.count && before(b, a) {
            order::lemma_text_lt_transitive(a.group_id, b.group_id, a.group_id);
            order::lemma_text_lt_irreflexive(a.group_id);
        }
    }
    assert forall|a: ChildSchemaModel, b: ChildSchemaModel, c: ChildSchemaModel|
        #![trigger before(a, c), before(a, b)]
        #![trigger before(a, c), before(b, c)]
        before(a, c) implies before(a, b) || before(b, c) by {
        order::lemma_text_lt_total(a.group_id, b.group_id);
        if a.count == b.count && a.count == c.count && order::text_lt(b.group_id, a.group_id) {
            order::lemma_text_lt_transitive(b.group_id, a.group_id, c.group_id);
        }
    }
}

/// The groups of children of a kind of node, from the entries of a section: each group
/// is told once and counts the entries of the kind that have it; no group of such an
/// entry is left out; the kind of its children is that of the first child that is
/// found; and the most common groups come first, those that are as common by name.
pub proof fn law_children_are_counted(
    section: Seq<char>,
    kind: Seq<char>,
    entries: Seq<(Seq<char>, EntryModel)>,
)
    requires
        entries.len() <= u64::MAX,
    ensures
        ({
            let es = only_entries(entries);
            let c = infer::kind_schema(
                section,
                kind,
                infer::entries_of_kind(entries, kind),
            ).children;
            &&& forall|i: int|
                0 <= i < c.len() ==> {
                    &&& (#[trigger] c[i]).count == entries_with_group(es, kind, c[i].group_id)
                    &&& c[i].count > 0
                    &&& c[i].child_node_id == text::or_empty(
                        first_kind(groups_in(es, kind), c[i].group_id),
                    )
                }
            &&& forall|id: Seq<char>| #[trigger]
                entries_with_group(es, kind, id) > 0 ==> exists|i: int|
                    0 <= i < c.len() && (#[trigger] c[i]).group_id == id
            &&& forall|i: int, j: int|
                0 <= i < j < c.len() ==> {
                    &&& (#[trigger] c[i]).group_id != (#[trigger] c[j]).group_id
                    &&& c[i].count > c[j].count || (c[i].count == c[j].count && order::text_lt(
                        c[i].group_id,
                        c[j].group_id,
                    ))
                }
        }),
{
    let es = only_entries(entries);
    let mine = infer::entries_of_kind(entries, kind);
    let c = infer::kind_schema(section, kind, mine).children;
    let seen = infer::groups_of(mine);
    let told = infer::told_groups(seen);
    let before = order::rank::<ChildSchema>();
    lemma_tallies(entries, kind);
    lemma_children_order();
    assert(groups_in(es, kind) + Seq::<GroupModel>::empty() =~= groups_in(es, kind));
    order::lemma_sorted_from(told, before);
    order::law_sort_orders(told, before);
    assert(told.no_duplicates()) by {
        assert forall|i: int, j: int|
            0 <= i < told.len() && 0 <= j < told.len() && i != j implies told[i] != told[j] by {
            if i < j {
                assert(seen[i].group_id != seen[j].group_id);
            } else {
                assert(seen[j].group_id != seen[i].group_id);
            }
        }
    }
    order::lemma_sorted_holds(told, before);
    assert forall|i: int| 0 <= i < c.len() implies (#[trigger] c[i]).count == entries_with_group(
        es,
        kind,
        c[i].group_id,
    ) && c[i].count > 0 && c[i].child_node_id == text::or_empty(
        first_kind(groups_in(es, kind), c[i].group_id),
    ) by {
        assert(told.contains(c[i]));
        let k = choose|k: int| 0 <= k < told.len() && told[k] == c[i];
        assert(seen[k].group_id == c[i].group_id);
        assert(!has_group(Seq::<GroupModel>::empty(), seen[k].group_id));
    }
    assert forall|id: Seq<char>| #[trigger]
        entries_with_group(es, kind, id) > 0 implies exists|i: int|
        0 <= i < c.len() && (#[trigger] c[i]).group_id == id by {
        assert(has_tally(seen, id));
        let k = choose|k: int| 0 <= k < seen.len() && (#[trigger] seen[k]).group_id == id;
        assert(told[k].group_id == id);
        assert(told.contains(told[k]));
        assert(c.contains(told[k]));
        let i = choose|i: int| 0 <= i < c.len() && c[i] == told[k];
        assert(c[i].group_id == id);
    }
    assert forall|i: int, j: int| 0 <= i < j < c.len() implies (#[trigger] c[i]).group_id
        != (#[trigger] c[j]).group_id && (c[i].count > c[j].count || (c[i].count == c[j].count
        && order::text_lt(c[i].group_id, c[j].group_id))) by {
        assert(told.contains(c[i]));
        assert(told.contains(c[j]));
        let a = choose|a: int| 0 <= a < told.len() && told[a] == c[i];
        let b = choose|b: int| 0 <= b < told.len() && told[b] == c[j];
        assert(c[i] != c[j]);
        if a < b {
            assert(seen[a].group_id != seen[b].group_id);
        } else {
            assert(seen[b].group_id != seen[a].group_id);
        }
        assert(!before(c[j], c[i]));
        order::lemma_text_lt_total(c[i].group_id, c[j].group_id);
    }
}

// ---------------------------------------------------------------------------
// Attributes
// ---------------------------------------------------------------------------

/// Whether an entry has an attribute.
pub open spec fn has_attr(e: EntryModel, name: Seq<char>) -> bool {
    exists|k: int| 0 <= k < e.attributes.len() && (#[trigger] e.attributes[k]).0 == name
}

/// The number of entries of a kind that have an attribute.
pub open spec fn entries_with_attr(entries: Seq<EntryModel>, kind: Seq<char>, name: Seq<char>) -> nat
    decreases entries.len(),
{
    if entries.len() == 0 {
        0
    } else {
        let e = entries.last();
        entries_with_attr(entries.drop_last(), kind, name) + (if e.node_id == kind && has_attr(
            e,
            name,
        ) {
            1nat
        } else {
            0
        })
    }
}

/// The values of an attribute, in the order in which they stand.
pub open spec fn values_of(
    attrs: Seq<(Seq<char>, AttributeModel)>,
    name: Seq<char>,
) -> Seq<AttributeModel>
    decreases attrs.len(),
{
    if attrs.len() == 0 {
        Seq::empty()
    } else {
        let before = values_of(attrs.drop_last(), name);
        if attrs.last().0 == name {
            before.push(attrs.last().1)
        } else {
            before
        }
    }
}

/// The values that the entries of a kind have of an attribute, one entry after the
/// other.
pub open spec fn values_in(entries: Seq<EntryModel>, kind: Seq<char>, name: Seq<char>) -> Seq<
    AttributeModel,
>
    decreases entries.len(),
{
    if entries.len() == 0 {
        Seq::empty()
    } else {
        let e = entries.last();
        values_in(entries.drop_last(), kind, name) + (if e.node_id == kind {
            values_of(e.attributes, name)
        } else {
            Seq::empty()
        })
    }
}

/// Whether examples are some of the values: each once and not empty, in the order in
/// which they first stand, and all of them where there are fewer than five.
pub open spec fn exemplify(examples: Seq<Seq<char>>, values: Seq<AttributeModel>) -> bool {
    &&& examples.len() <= 5
    &&& examples.no_duplicates()
    &&& forall|i: int|
        0 <= i < examples.len() ==> (#[trigger] examples[i]).len() > 0 && exists|k: int|
            first_stands(values, k, examples[i])
    &&& forall|i: int, j: int, k: int, l: int|
        0 <= i < j < examples.len() && #[trigger] first_stands(values, k, examples[i])
            && #[trigger] first_stands(values, l, examples[j]) ==> k < l
    &&& forall|k: int|
        0 <= k < values.len() && (#[trigger] values[k]).value.len() > 0 ==> examples.contains(
            values[k].value,
        ) || (examples.len() == 5 && forall|i: int, l: int|
            0 <= i < 5 && #[trigger] first_stands(values, l, examples[i]) ==> l < k)
}

/// Whether a value stands at a place and not before it.
pub open spec fn first_stands(values: Seq<AttributeModel>, k: int, v: Seq<char>) -> bool {
    &&& 0 <= k < values.len()
    &&& values[k].value == v
    &&& forall|l: int| 0 <= l < k ==> (#[trigger] values[l]).value != v
}

/// Whether an attribute was seen with given values.
spec fn describes(a: AttrSchemaModel, values: Seq<AttributeModel>) -> bool {
    &&& values.len() > 0
    &&& a.count == values.len() || (values.len() > u64::MAX && a.count == u64::MAX)
    &&& a.attr_type == values[0].attr_type
    &&& exemplify(a.examples, values)
}

spec fn has_schema(seen: Seq<AttrSchemaModel>, name: Seq<char>) -> bool {
    exists|i: int| 0 <= i < seen.len() && (#[trigger] seen[i]).name == name
}

/// Whether attributes were seen with the values that the entries of a kind have of them,
/// and then some more.
spec fn attrs_noted(
    seen: Seq<AttrSchemaModel>,
    entries: Seq<EntryModel>,
    kind: Seq<char>,
    part: Seq<(Seq<char>, AttributeModel)>,
) -> bool {
    &&& forall|i: int, j: int|
        0 <= i < j < seen.len() ==> (#[trigger] seen[i]).name != (#[trigger] seen[j]).name
    &&& forall|i: int|
        0 <= i < seen.len() ==> describes(
            #[trigger] seen[i],
            values_in(entries, kind, seen[i].name) + values_of(part, seen[i].name),
        )
    &&& forall|name: Seq<char>|
        #![trigger values_in(entries, kind, name)]
        #![trigger values_of(part, name)]
        values_in(entries, kind, name).len() > 0 || values_of(part, name).len() > 0 ==> has_schema(
            seen,
            name,
        )
}

proof fn lemma_attr_place(seen: Seq<AttrSchemaModel>, name: Seq<char>, from: int)
    requires
        0 <= from <= seen.len(),
    ensures
        ({
            let at = infer::attr_place(seen, name, from);
            &&& from <= at <= seen.len()
            &&& at < seen.len() ==> seen[at].name == name
            &&& forall|k: int| from <= k < at ==> (#[trigger] seen[k]).name != name
        }),
    decreases seen.len() - from,
{
    if from < seen.len() && seen[from].name != name {
        lemma_attr_place(seen, name, from + 1);
    }
}

proof fn lemma_one_more_example(
    examples: Seq<Seq<char>>,
    values: Seq<AttributeModel>,
    a: AttributeModel,
)
    requires
        exemplify(examples, values),
    ensures
        exemplify(infer::with_example(examples, a.value), values.push(a)),
{
    let more = values.push(a);
    let after = infer::with_example(examples, a.value);
    let n = values.len() as int;
    assert forall|k: int, v: Seq<char>| #[trigger] first_stands(values, k, v) implies first_stands(
        more,
        k,
        v,
    ) by {
        assert forall|l: int| 0 <= l < k implies (#[trigger] more[l]).value != v by {
            assert(values[l].value != v);
        }
    }
    assert forall|k: int, v: Seq<char>| #[trigger]
        first_stands(more, k, v) && k < n implies first_stands(values, k, v) by {
        assert forall|l: int| 0 <= l < k implies (#[trigger] values[l]).value != v by {
            assert(more[l].value != v);
        }
    }
    if after.len() > examples.len() {
        assert(after[examples.len() as int] == a.value);
        assert forall|l: int| 0 <= l < n implies (#[trigger] more[l]).value != a.value by {
            if values[l].value == a.value {
                assert(examples.contains(values[l].value));
            }
        }
        assert(first_stands(more, n, a.value));
    }
    assert forall|i: int| 0 <= i < after.len() implies (#[trigger] after[i]).len() > 0
        && exists|k: int| first_stands(more, k, after[i]) by {
        if i < examples.len() {
            assert(after[i] == examples[i]);
            let k = choose|k: int| first_stands(values, k, examples[i]);
            assert(first_stands(more, k, after[i]));
        } else {
            assert(first_stands(more, n, after[i]));
        }
    }
    assert forall|i: int, j: int, k: int, l: int|
        0 <= i < j < after.len() && #[trigger] first_stands(more, k, after[i])
            && #[trigger] first_stands(more, l, after[j]) implies k < l by {
        assert(after[i] == examples[i]);
        let k0 = choose|k0: int| first_stands(values, k0, examples[i]);
        assert(first_stands(more, k0, after[i]));
        lemma_first_once(more, k, k0, after[i]);
        if j < examples.len() {
            assert(after[j] == examples[j]);
            let l0 = choose|l0: int| first_stands(values, l0, examples[j]);
            assert(first_stands(more, l0, after[j]));
            lemma_first_once(more, l, l0, after[j]);
        } else {
            lemma_first_once(more, l, n, after[j]);
        }
    }
    assert forall|k: int|
        0 <= k < more.len() && (#[trigger] more[k]).value.len() > 0 implies after.contains(
        more[k].value,
    ) || (after.len() == 5 && forall|i: int, l: int|
        0 <= i < 5 && #[trigger] first_stands(more, l, after[i]) ==> l < k) by {
        if k < n {
            assert(more[k] == values[k]);
            if examples.contains(values[k].value) {
                let i = choose|i: int| 0 <= i < examples.len() && examples[i] == values[k].value;
                assert(after[i] == more[k].value);
            } else {
                assert(after == examples);
                assert forall|i: int, l: int|
                    0 <= i < 5 && #[trigger] first_stands(more, l, after[i]) implies l < k by {
                    let l0 = choose|l0: int| first_stands(values, l0, examples[i]);
                    assert(first_stands(more, l0, after[i]));
                    lemma_first_once(more, l, l0, after[i]);
                }
            }
        } else if !after.contains(a.value) {
            assert(after == examples);
            assert(examples.len() == 5) by {
                if examples.len() < 5 {
                    assert(!text::listed(examples, a.value));
                    assert(examples.push(a.value)[examples.len() as int] == a.value);
                }
            }
            assert forall|i: int, l: int|
                0 <= i < 5 && #[trigger] first_stands(more, l, after[i]) implies l < k by {
                let l0 = choose|l0: int| first_stands(values, l0, examples[i]);
                assert(first_stands(more, l0, after[i]));
                lemma_first_once(more, l, l0, after[i]);
            }
        }
    }
}

proof fn lemma_first_once(values: Seq<AttributeModel>, k: int, l: int, v: Seq<char>)
    requires
        first_stands(values, k, v),
        first_stands(values, l, v),
    ensures
        k == l,
{
    if k < l {
        assert(values[k].value != v);
    }
    if l < k {
        assert(values[l].value != v);
    }
}

proof fn lemma_note_attr(
    seen: Seq<AttrSchemaModel>,
    entries: Seq<EntryModel>,
    kind: Seq<char>,
    part: Seq<(Seq<char>, AttributeModel)>,
    name: Seq<char>,
    a: AttributeModel,
)
    requires
        attrs_noted(seen, entries, kind, part),
    ensures
        attrs_noted(infer::attr_seen(seen, name, a), entries, kind, part.push((name, a))),
{
    let at = infer::attr_place(seen, name, 0);
    let after = infer::attr_seen(seen, name, a);
    let more = part.push((name, a));
    lemma_attr_place(seen, name, 0);
    assert(more.drop_last() =~= part);
    assert(more.last() == (name, a));
    let old_values = values_in(entries, kind, name) + values_of(part, name);
    assert(values_in(entries, kind, name) + values_of(more, name) =~= old_values.push(a));
    assert forall|i: int| 0 <= i < after.len() implies describes(
        #[trigger] after[i],
        values_in(entries, kind, after[i].name) + values_of(more, after[i].name),
    ) by {
        if i < seen.len() {
            assert(after[i].name == seen[i].name);
            assert(describes(
                seen[i],
                values_in(entries, kind, seen[i].name) + values_of(part, seen[i].name),
            ));
            if i == at {
                lemma_one_more_example(seen[at].examples, old_values, a);
            } else if seen[i].name == name && at < seen.len() {
                if i < at {
                    assert(seen[i].name != seen[at].name);
                } else {
                    assert(seen[at].name != seen[i].name);
                }
            }
        } else {
            assert(!has_schema(seen, name));
            assert(values_in(entries, kind, name).len() == 0);
            assert(values_of(part, name).len() == 0);
            assert(old_values =~= Seq::<AttributeModel>::empty());
            lemma_one_more_example(Seq::empty(), old_values, a);
        }
    }
    assert forall|x: Seq<char>|
        #![trigger values_in(entries, kind, x)]
        #![trigger values_of(more, x)]
        values_in(entries, kind, x).len() > 0 || values_of(more, x).len() > 0 implies has_schema(
        after,
        x,
    ) by {
        if x == name {
            if at < seen.len() {
                assert(after[at].name == x);
            } else {
                assert(after[seen.len() as int].name == x);
            }
        } else {
            assert(values_of(more, x) == values_of(part, x));
            assert(has_schema(seen, x));
            let i = choose|i: int| 0 <= i < seen.len() && (#[trigger] seen[i]).name == x;
            assert(after[i].name == x);
        }
    }
    assert forall|i: int, j: int| 0 <= i < j < after.len() implies (#[trigger] after[i]).name
        != (#[trigger] after[j]).name by {
        assert(after[i].name == seen[i].name);
        if j < seen.len() {
            assert(after[j].name == seen[j].name);
        }
    }
}

proof fn lemma_note_attrs(
    seen: Seq<AttrSchemaModel>,
    entries: Seq<EntryModel>,
    kind: Seq<char>,
    attrs: Seq<(Seq<char>, AttributeModel)>,
)
    requires
        attrs_noted(seen, entries, kind, Seq::empty()),
    ensures
        attrs_noted(infer::attrs_seen(seen, attrs), entries, kind, attrs),
    decreases attrs.len(),
{
    if attrs.len() == 0 {
        assert(attrs =~= Seq::<(Seq<char>, AttributeModel)>::empty());
    } else {
        let d = attrs.drop_last();
        lemma_note_attrs(seen, entries, kind, d);
        lemma_note_attr(
            infer::attrs_seen(seen, d),
            entries,
            kind,
            d,
            attrs.last().0,
            attrs.last().1,
        );
        assert(d.push(attrs.last()) =~= attrs);
    }
}

proof fn lemma_attrs_noted(entries: Seq<(Seq<char>, EntryModel)>, kind: Seq<char>)
    ensures
        attrs_noted(
            infer::attrs_of(infer::entries_of_kind(entries, kind)),
            only_entries(entries),
            kind,
            Seq::empty(),
        ),
    decreases entries.len(),
{
    let none = Seq::<(Seq<char>, AttributeModel)>::empty();
    let es = only_entries(entries);
    if entries.len() > 0 {
        let d = entries.drop_last();
        let e = entries.last().1;
        lemma_attrs_noted(d, kind);
        let ds = only_entries(d);
        assert(es.drop_last() =~= ds);
        let before = infer::entries_of_kind(d, kind);
        let seen = infer::attrs_of(before);
        let after = infer::attrs_of(infer::entries_of_kind(entries, kind));
        if e.node_id == kind {
            lemma_note_attrs(seen, ds, kind, e.attributes);
            assert(before.push(e).drop_last() =~= before);
            assert(after == infer::attrs_seen(seen, e.attributes));
            assert forall|i: int| 0 <= i < after.len() implies describes(
                #[trigger] after[i],
                values_in(es, kind, after[i].name) + values_of(none, after[i].name),
            ) by {
                assert(values_in(es, kind, after[i].name) + values_of(none, after[i].name)
                    =~= values_in(ds, kind, after[i].name) + values_of(
                    e.attributes,
                    after[i].name,
                ));
            }
            assert forall|x: Seq<char>|
                #![trigger values_in(es, kind, x)]
                #![trigger values_of(none, x)]
                values_in(es, kind, x).len() > 0 || values_of(none, x).len() > 0 implies has_schema(
                after,
                x,
            ) by {
                assert(values_in(ds, kind, x).len() > 0 || values_of(e.attributes, x).len() > 0);
            }
        } else {
            assert forall|i: int| 0 <= i < after.len() implies describes(
                #[trigger] after[i],
                values_in(es, kind, after[i].name) + values_of(none, after[i].name),
            ) by {
                assert(values_in(es, kind, after[i].name) =~= values_in(ds, kind, after[i].name));
            }
            assert forall|x: Seq<char>|
                #![trigger values_in(es, kind, x)]
                #![trigger values_of(none, x)]
                values_in(es, kind, x).len() > 0 || values_of(none, x).len() > 0 implies has_schema(
                after,
                x,
            ) by {
                assert(values_in(es, kind, x) =~= values_in(ds, kind, x));
                assert(values_in(ds, kind, x).len() > 0);
            }
        }
    }
}

proof fn lemma_value_of_attr(attrs: Seq<(Seq<char>, AttributeModel)>, name: Seq<char>)
    requires
        textmap::distinct(attrs),
    ensures
        values_of(attrs, name).len() == (if exists|k: int|
            0 <= k < attrs.len() && (#[trigger] attrs[k]).0 == name {
            1nat
        } else {
            0
        }),
    decreases attrs.len(),
{
    if attrs.len() > 0 {
        let d = attrs.drop_last();
        assert forall|i: int, j: int| 0 <= i < j < d.len() implies #[trigger] d[i].0
            != #[trigger] d[j].0 by {
            assert(attrs[i].0 != attrs[j].0);
        }
        lemma_value_of_attr(d, name);
        let l = attrs.len() - 1;
        if attrs[l].0 == name {
            assert forall|k: int| 0 <= k < d.len() implies (#[trigger] d[k]).0 != name by {
                assert(attrs[k].0 != attrs[l].0);
            }
        } else if exists|k: int| 0 <= k < attrs.len() && (#[trigger] attrs[k]).0 == name {
            let k = choose|k: int| 0 <= k < attrs.len() && (#[trigger] attrs[k]).0 == name;
            assert(d[k].0 == name);
        } else {
            assert forall|k: int| 0 <= k < d.len() implies (#[trigger] d[k]).0 != name by {
                assert(attrs[k].0 != name);
            }
        }
    }
}

proof fn lemma_values_counted(entries: Seq<EntryModel>, kind: Seq<char>, name: Seq<char>)
    requires
        infer::distinct_attributes(entries),
    ensures
        values_in(entries, kind, name).len() == entries_with_attr(entries, kind, name),
        entries_with_attr(entries, kind, name) <= entries.len(),
    decreases entries.len(),
{
    if entries.len() > 0 {
        let d = entries.drop_last();
        assert forall|i: int| 0 <= i < d.len() implies textmap::distinct(
            (#[trigger] d[i]).attributes,
        ) by {
            assert(d[i] == entries[i]);
        }
        lemma_values_counted(d, kind, name);
        assert(entries[entries.len() - 1] == entries.last());
        lemma_value_of_attr(entries.last().attributes, name);
    }
}

proof fn lemma_attrs_order()
    ensures
        order::orders(order::rank::<AttrSchema>()),
{
    let before = order::rank::<AttrSchema>();
    assert forall|a: AttrSchemaModel, b: AttrSchemaModel| #[trigger] before(a, b) implies !before(
        b,
        a,
    ) by {
        if a.count == b.count && before(b, a) {
            order::lemma_text_lt_transitive(a.name, b.name, a.name);
            order::lemma_text_lt_irreflexive(a.name);
        }
    }
    assert forall|a: AttrSchemaModel, b: AttrSchemaModel, c: AttrSchemaModel|
        #![trigger before(a, c), before(a, b)]
        #![trigger before(a, c), before(b, c)]
        before(a, c) implies before(a, b) || before(b, c) by {
        order::lemma_text_lt_total(a.name, b.name);
        if a.name != "UUID"@ && c.name != "UUID"@ && a.count == b.count && a.count == c.count
            && order::text_lt(b.name, a.name) {
            order::lemma_text_lt_transitive(b.name, a.name, c.name);
        }
    }
}

/// Whether one attribute is told before another: `UUID` first, then the most common, and
/// those that are as common by name.
pub open spec fn told_before(a: AttrSchemaModel, b: AttrSchemaModel) -> bool {
    &&& b.name != "UUID"@
    &&& a.name == "UUID"@ || a.count > b.count || (a.count == b.count && order::text_lt(
        a.name,
        b.name,
    ))
}

/// The attributes of a kind of node, from the entries of a section: each attribute is told
/// once and counts the entries of the kind that have it; no attribute of such an entry is
/// left out; its type is the first that is found; its examples are the first of its
/// values; and `UUID` comes first, then the most common ones.
pub proof fn law_attributes_are_counted(
    section: Seq<char>,
    kind: Seq<char>,
    entries: Seq<(Seq<char>, EntryModel)>,
)
    requires
        entries.len() <= u64::MAX,
        infer::distinct_attributes(only_entries(entries)),
    ensures
        ({
            let es = only_entries(entries);
            let a = infer::kind_schema(
                section,
                kind,
                infer::entries_of_kind(entries, kind),
            ).attributes;
            &&& forall|i: int|
                0 <= i < a.len() ==> {
                    &&& (#[trigger] a[i]).count == entries_with_attr(es, kind, a[i].name)
                    &&& a[i].count > 0
                    &&& a[i].attr_type == values_in(es, kind, a[i].name)[0].attr_type
                    &&& exemplify(a[i].examples, values_in(es, kind, a[i].name))
                }
            &&& forall|name: Seq<char>| #[trigger]
                entries_with_attr(es, kind, name) > 0 ==> exists|i: int|
                    0 <= i < a.len() && (#[trigger] a[i]).name == name
            &&& forall|i: int, j: int|
                0 <= i < j < a.len() ==> (#[trigger] a[i]).name != (#[trigger] a[j]).name
                    && told_before(a[i], a[j])
        }),
{
    let es = only_entries(entries);
    let mine = infer::entries_of_kind(entries, kind);
    let a = infer::kind_schema(section, kind, mine).attributes;
    let seen = infer::attrs_of(mine);
    let before = order::rank::<AttrSchema>();
    lemma_attrs_noted(entries, kind);
    lemma_attrs_order();
    order::lemma_sorted_from(seen, before);
    order::law_sort_orders(seen, before);
    assert(seen.no_duplicates()) by {
        assert forall|i: int, j: int|
            0 <= i < seen.len() && 0 <= j < seen.len() && i != j implies seen[i] != seen[j] by {
            if i < j {
                assert(seen[i].name != seen[j].name);
            } else {
                assert(seen[j].name != seen[i].name);
            }
        }
    }
    order::lemma_sorted_holds(seen, before);
    let none = Seq::<(Seq<char>, AttributeModel)>::empty();
    assert forall|i: int| 0 <= i < a.len() implies (#[trigger] a[i]).count == entries_with_attr(
        es,
        kind,
        a[i].name,
    ) && a[i].count > 0 && a[i].attr_type == values_in(es, kind, a[i].name)[0].attr_type
        && exemplify(a[i].examples, values_in(es, kind, a[i].name)) by {
        assert(seen.contains(a[i]));
        let k = choose|k: int| 0 <= k < seen.len() && seen[k] == a[i];
        lemma_values_counted(es, kind, a[i].name);
        assert(values_in(es, kind, a[i].name) + values_of(none, a[i].name) =~= values_in(
            es,
            kind,
            a[i].name,
        ));
        assert(describes(seen[k], values_in(es, kind, a[i].name)));
    }
    assert forall|name: Seq<char>| #[trigger]
        entries_with_attr(es, kind, name) > 0 implies exists|i: int|
        0 <= i < a.len() && (#[trigger] a[i]).name == name by {
        lemma_values_counted(es, kind, name);
        assert(values_in(es, kind, name).len() > 0);
        assert(has_schema(seen, name));
        let k = choose|k: int| 0 <= k < seen.len() && (#[trigger] seen[k]).name == name;
        assert(seen.contains(seen[k]));
        assert(a.contains(seen[k]));
        let i = choose|i: int| 0 <= i < a.len() && a[i] == seen[k];
        assert(a[i].name == name);
    }
    assert forall|i: int, j: int| 0 <= i < j < a.len() implies (#[trigger] a[i]).name
        != (#[trigger] a[j]).name && told_before(a[i], a[j]) by {
        assert(seen.contains(a[i]));
        assert(seen.contains(a[j]));
        let x = choose|x: int| 0 <= x < seen.len() && seen[x] == a[i];
        let y = choose|y: int| 0 <= y < seen.len() && seen[y] == a[j];
        assert(a[i] != a[j]);
        if x < y {
            assert(seen[x].name != seen[y].name);
        } else {
            assert(seen[y].name != seen[x].name);
        }
        assert(!before(a[j], a[i]));
        order::lemma_text_lt_total(a[i].name, a[j].name);
    }
}

// ---------------------------------------------------------------------------
// Kinds of nodes
// ---------------------------------------------------------------------------

/// The number of entries of a kind.
pub open spec fn entries_of(entries: Seq<EntryModel>, kind: Seq<char>) -> nat
    decreases entries.len(),
{
    if entries.len() == 0 {
        0
    } else {
        entries_of(entries.drop_last(), kind) + (if entries.last().node_id == kind {
            1nat
        } else {
            0
        })
    }
}

proof fn lemma_kind_entries(entries: Seq<(Seq<char>, EntryModel)>, kind: Seq<char>)
    ensures
        infer::entries_of_kind(entries, kind).len() == entries_of(only_entries(entries), kind),
    decreases entries.len(),
{
    if entries.len() > 0 {
        lemma_kind_entries(entries.drop_last(), kind);
        assert(only_entries(entries).drop_last() =~= only_entries(entries.drop_last()));
    }
}

proof fn lemma_kinds(entries: Seq<(Seq<char>, EntryModel)>)
    ensures
        infer::kinds_of(entries).no_duplicates(),
        forall|kind: Seq<char>| #[trigger]
            infer::kinds_of(entries).contains(kind) <==> entries_of(only_entries(entries), kind)
                > 0,
    decreases entries.len(),
{
    let r = infer::kinds_of(entries);
    if entries.len() > 0 {
        let d = entries.drop_last();
        let before = infer::kinds_of(d);
        let k = entries.last().1.node_id;
        lemma_kinds(d);
        assert(only_entries(entries).drop_last() =~= only_entries(d));
        assert forall|kind: Seq<char>| #[trigger] r.contains(kind) <==> entries_of(
            only_entries(entries),
            kind,
        ) > 0 by {
            assert(before.contains(kind) <==> entries_of(only_entries(d), kind) > 0);
            if r.contains(kind) {
                let i = choose|i: int| 0 <= i < r.len() && r[i] == kind;
                if i < before.len() {
                    assert(before[i] == kind);
                }
            }
            if before.contains(kind) {
                let i = choose|i: int| 0 <= i < before.len() && before[i] == kind;
                assert(r[i] == kind);
            }
            if kind == k && !before.contains(k) {
                assert(r[before.len() as int] == k);
            }
        }
    } else {
        assert forall|kind: Seq<char>| #[trigger] r.contains(kind) <==> entries_of(
            only_entries(entries),
            kind,
        ) > 0 by {}
    }
}

/// The kinds of nodes of a section: each kind that an entry is of is told once, and no
/// other, under the name of the section and with the number of its entries.
pub proof fn law_kinds_are_told(section: Seq<char>, entries: Seq<(Seq<char>, EntryModel)>)
    ensures
        ({
            let es = only_entries(entries);
            let r = infer::section_schemas(section, entries);
            &&& forall|i: int|
                0 <= i < r.len() ==> {
                    &&& (#[trigger] r[i]).section == section
                    &&& r[i].sample_count == entries_of(es, r[i].node_id)
                    &&& r[i].sample_count > 0
                }
            &&& forall|i: int, j: int|
                0 <= i < j < r.len() ==> (#[trigger] r[i]).node_id != (#[trigger] r[j]).node_id
            &&& forall|kind: Seq<char>| #[trigger]
                entries_of(es, kind) > 0 ==> exists|i: int|
                    0 <= i < r.len() && (#[trigger] r[i]).node_id == kind
        }),
{
    let es = only_entries(entries);
    let r = infer::section_schemas(section, entries);
    let kinds = infer::kinds_of(entries);
    lemma_kinds(entries);
    assert forall|i: int| 0 <= i < r.len() implies (#[trigger] r[i]).section == section
        && r[i].sample_count == entries_of(es, r[i].node_id) && r[i].sample_count > 0 by {
        lemma_kind_entries(entries, kinds[i]);
        assert(kinds.contains(kinds[i]));
    }
    assert forall|kind: Seq<char>| #[trigger] entries_of(es, kind) > 0 implies exists|i: int|
        0 <= i < r.len() && (#[trigger] r[i]).node_id == kind by {
        assert(kinds.contains(kind));
        let i = choose|i: int| 0 <= i < kinds.len() && kinds[i] == kind;
        assert(r[i].node_id == kind);
    }
}

/// Sections are looked at apart from each other and told in their order.
pub proof fn law_sections_join(
    a: Seq<(SectionModel, Seq<(Seq<char>, EntryModel)>)>,
    b: Seq<(SectionModel, Seq<(Seq<char>, EntryModel)>)>,
    section: SectionModel,
    entries: Seq<(Seq<char>, EntryModel)>,
)
    ensures
        infer::all_schemas(a + b) == infer::all_schemas(a) + infer::all_schemas(b),
        infer::all_schemas(seq![(section, entries)]) == infer::section_schemas(
            section.name,
            entries,
        ),
    decreases b.len(),
{
    let one = seq![(section, entries)];
    assert(one.drop_last() =~= Seq::<(SectionModel, Seq<(Seq<char>, EntryModel)>)>::empty());
    reveal_with_fuel(infer::all_schemas, 2);
    assert(infer::all_schemas(one) =~= infer::section_schemas(section.name, entries));
    if b.len() == 0 {
        assert(a + b =~= a);
        assert(infer::all_schemas(a) + Seq::<NodeSchemaModel>::empty() =~= infer::all_schemas(a));
    } else {
        law_sections_join(a, b.drop_last(), section, entries);
        assert((a + b).drop_last() =~= a + b.drop_last());
        assert(infer::all_schemas(a + b) =~= infer::all_schemas(a) + infer::all_schemas(b));
    }
}

} // verus!
