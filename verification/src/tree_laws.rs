//! What holds of the rows and links that trees of nodes come to.

use vstd::prelude::*;
use crate::parsed::NodeModel;
use crate::row_fill::OutcomeModel;
use crate::schema::SchemaModel;
use crate::tree_insert;
use crate::tree_insert::{Act, Run};

verus! {

/// Whether a run is that of another one followed by a third.
pub open spec fn follows(all: Run, first: Run, second: Run) -> bool {
    &&& all.keys == first.keys + second.keys
    &&& all.rows == first.rows + second.rows
    &&& all.errors == first.errors + second.errors
    &&& all.acts == first.acts + second.acts
    &&& all.rest == second.rest
}

/// Trees are inserted one after another: those behind take the outcomes that those before
/// left, and nothing of either is lost.
pub proof fn law_trees_follow_each_other(
    schema: SchemaModel,
    a: Seq<NodeModel>,
    b: Seq<NodeModel>,
    outs: Seq<OutcomeModel>,
)
    ensures
        follows(
            tree_insert::forest_run(schema, a + b, outs),
            tree_insert::forest_run(schema, a, outs),
            tree_insert::forest_run(
                schema,
                b,
                tree_insert::forest_run(schema, a, outs).rest,
            ),
        ),
    decreases a.len(),
{
    let all = tree_insert::forest_run(schema, a + b, outs);
    let first = tree_insert::forest_run(schema, a, outs);
    let second = tree_insert::forest_run(schema, b, first.rest);
    if a.len() == 0 {
        assert(a + b =~= b);
        assert(first.keys + second.keys =~= second.keys);
        assert(first.acts + second.acts =~= second.acts);
    } else {
        assert((a + b).drop_first() =~= a.drop_first() + b);
        assert((a + b)[0] == a[0]);
        let one = tree_insert::tree_run(schema, a[0], outs);
        law_trees_follow_each_other(schema, a.drop_first(), b, one.rest);
        let others = tree_insert::forest_run(schema, a.drop_first(), one.rest);
        assert(one.keys + (others.keys + second.keys) =~= (one.keys + others.keys) + second.keys);
        assert(one.acts + (others.acts + second.acts) =~= (one.acts + others.acts) + second.acts);
    }
}

/// A single tree is inserted like several of which it is the only one.
pub proof fn law_one_tree_alone(schema: SchemaModel, node: NodeModel, outs: Seq<OutcomeModel>)
    ensures
        tree_insert::forest_run(schema, seq![node], outs) == tree_insert::tree_run(
            schema,
            node,
            outs,
        ),
{
    let one = tree_insert::tree_run(schema, node, outs);
    let s = seq![node];
    let r = tree_insert::forest_run(schema, s, outs);
    assert(s.drop_first() =~= Seq::<NodeModel>::empty());
    assert(s[0] == node);
    let none = tree_insert::forest_run(schema, s.drop_first(), one.rest);
    assert(none == tree_insert::idle_run(one.rest));
    assert(r.keys =~= one.keys);
    assert(r.acts =~= one.acts);
}

/// A node without values has no row: its children are inserted in its place.
pub proof fn law_empty_node_stands_for_children(
    schema: SchemaModel,
    node: NodeModel,
    outs: Seq<OutcomeModel>,
)
    requires
        !node.has_data,
    ensures
        tree_insert::tree_run(schema, node, outs) == tree_insert::forest_run(
            schema,
            node.children,
            outs,
        ),
{
}

proof fn lemma_links(
    schema: SchemaModel,
    table: Seq<char>,
    pk: Seq<char>,
    keys: Seq<(Seq<char>, Seq<char>)>,
    act: Act,
)
    ensures
        tree_insert::links_to(schema, table, pk, keys).contains(act) <==> is_link(
            schema,
            table,
            pk,
            keys,
            act,
        ),
    decreases keys.len(),
{
    let r = tree_insert::links_to(schema, table, pk, keys);
    if keys.len() > 0 {
        let d = keys.drop_last();
        let before = tree_insert::links_to(schema, table, pk, d);
        lemma_links(schema, table, pk, d, act);
        assert(keys[keys.len() - 1] == keys.last());
        if is_link(schema, table, pk, d, act) {
            let k = choose|k: int|
                0 <= k < d.len() && links(schema, table, pk, #[trigger] d[k], act);
            assert(keys[k] == d[k]);
            let at = choose|at: int| 0 <= at < before.len() && before[at] == act;
            assert(r[at] == act);
        }
        if is_link(schema, table, pk, keys, act) {
            let k = choose|k: int|
                0 <= k < keys.len() && links(schema, table, pk, #[trigger] keys[k], act);
            if k < d.len() {
                assert(d[k] == keys[k]);
                assert(is_link(schema, table, pk, d, act));
            } else {
                assert(r[r.len() - 1] == act);
            }
        }
        if r.contains(act) && !before.contains(act) {
            let at = choose|at: int| 0 <= at < r.len() && r[at] == act;
            if at < before.len() {
                assert(before[at] == act);
            }
            assert(links(schema, table, pk, keys[keys.len() - 1], act));
        }
    }
}

/// Whether something that is written links a row to one below it, by the table that links
/// the tables of both.
pub open spec fn links(
    schema: SchemaModel,
    table: Seq<char>,
    pk: Seq<char>,
    child: (Seq<char>, Seq<char>),
    act: Act,
) -> bool {
    tree_insert::junction_of(schema, table, child.0) matches Some(j) && act == (Act::Link {
        junction: j,
        parent: pk,
        child: child.1,
    })
}

/// Whether something that is written links a row to one of several below it.
pub open spec fn is_link(
    schema: SchemaModel,
    table: Seq<char>,
    pk: Seq<char>,
    keys: Seq<(Seq<char>, Seq<char>)>,
    act: Act,
) -> bool {
    exists|k: int| 0 <= k < keys.len() && links(schema, table, pk, #[trigger] keys[k], act)
}

/// A row that is inserted is written first, then all that lies below it, and at last its
/// links to the rows right below it; it counts as one row, and rows above are linked to it
/// alone.
pub proof fn law_inserted_row_is_linked(
    schema: SchemaModel,
    node: NodeModel,
    pk: Seq<char>,
    outs: Seq<OutcomeModel>,
)
    requires
        node.has_data,
    ensures
        ({
            let run = tree_insert::tree_run(
                schema,
                node,
                seq![OutcomeModel::Keyed { pk, inserted: true }] + outs,
            );
            let below = tree_insert::forest_run(schema, node.children, outs);
            let n = 1 + below.acts.len() as int;
            &&& run.rows == 1 + below.rows
            &&& run.errors == below.errors
            &&& run.rest == below.rest
            &&& run.keys == seq![(node.table_name, pk)]
            &&& run.acts.len() >= n
            &&& run.acts[0] == (Act::Row { table: node.table_name, attrs: node.attrs })
            &&& run.acts.subrange(1, n) == below.acts
            &&& forall|act: Act| #[trigger]
                run.acts.skip(n).contains(act) <==> is_link(
                    schema,
                    node.table_name,
                    pk,
                    below.keys,
                    act,
                )
        }),
{
    let all = seq![OutcomeModel::Keyed { pk, inserted: true }] + outs;
    assert(all[0] == (OutcomeModel::Keyed { pk, inserted: true }));
    assert(all.drop_first() =~= outs);
    let run = tree_insert::tree_run(schema, node, all);
    let below = tree_insert::forest_run(schema, node.children, outs);
    let made = tree_insert::links_to(schema, node.table_name, pk, below.keys);
    let n = 1 + below.acts.len() as int;
    assert(run.acts.subrange(1, n) =~= below.acts);
    assert(run.acts.skip(n) =~= made);
    assert forall|act: Act| #[trigger] run.acts.skip(n).contains(act) <==> is_link(
        schema,
        node.table_name,
        pk,
        below.keys,
        act,
    ) by {
        lemma_links(schema, node.table_name, pk, below.keys, act);
    }
}

/// A row without a key is written before all that lies below it, and is linked to nothing.
pub proof fn law_unkeyed_row_is_not_linked(
    schema: SchemaModel,
    node: NodeModel,
    outs: Seq<OutcomeModel>,
)
    requires
        node.has_data,
    ensures
        ({
            let run = tree_insert::tree_run(schema, node, seq![OutcomeModel::Unkeyed] + outs);
            let below = tree_insert::forest_run(schema, node.children, outs);
            &&& run.rows == 1 + below.rows
            &&& run.errors == below.errors
            &&& run.rest == below.rest
            &&& run.keys.len() == 0
            &&& run.acts == seq![Act::Row { table: node.table_name, attrs: node.attrs }]
                + below.acts
        }),
{
    let all = seq![OutcomeModel::Unkeyed] + outs;
    assert(all[0] == OutcomeModel::Unkeyed);
    assert(all.drop_first() =~= outs);
}

} // verus!
