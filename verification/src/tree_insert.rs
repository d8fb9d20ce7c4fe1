//! Inserting trees of nodes, one row at a time.
//!
//! A parent goes in before its children. Where its key was there already, the
//! whole tree below it is left out, so that the children of a row always come
//! from the file that the row came from.

use vstd::prelude::*;
use crate::parsed;
use crate::parsed::{NodeModel, ParsedNode};
use crate::row_fill::{OutcomeModel, RowOutcome};
use crate::schema::{DiscoveredSchema, SchemaModel};
use crate::textmap;

verus! {

/// The table that links rows of two tables, where there is one.
pub open spec fn junction_of(
    schema: SchemaModel,
    parent_table: Seq<char>,
    child_table: Seq<char>,
) -> Option<Seq<char>> {
    match textmap::value_of(schema.junction_lookup, parent_table) {
        Some(children) => textmap::value_of(children, child_table),
        None => None,
    }
}

/// The table that links rows of two tables, where there is one.
pub fn find_junction_table(schema: &DiscoveredSchema, parent_table: &str, child_table: &str) -> (r:
    Option<String>)
    ensures
        r.deep_view() == junction_of(schema.deep_view(), parent_table@, child_table@),
{
    match schema.junction_lookup.get(parent_table) {
        Some(children) => match children.get(child_table) {
            Some(j) => Some(j.clone()),
            None => None,
        },
        None => None,
    }
}

/// Something that is written: the row of a node, or a link of two rows.
pub enum Act {
    Row { table: Seq<char>, attrs: Seq<(Seq<char>, Seq<char>, Seq<char>)> },
    Link { junction: Seq<char>, parent: Seq<char>, child: Seq<char> },
}

/// What inserting trees comes to, for given outcomes of their rows.
pub struct Run {
    /// The table and key of each row that a row above can be linked to.
    pub keys: Seq<(Seq<char>, Seq<char>)>,
    pub rows: nat,
    pub errors: nat,
    pub acts: Seq<Act>,
    /// The outcomes that are left.
    pub rest: Seq<OutcomeModel>,
}

/// Nothing is inserted.
pub open spec fn idle_run(outs: Seq<OutcomeModel>) -> Run {
    Run { keys: Seq::empty(), rows: 0, errors: 0, acts: Seq::empty(), rest: outs }
}

/// The next outcome. Where none is left, the row counts as refused.
pub open spec fn next_outcome(outs: Seq<OutcomeModel>) -> OutcomeModel {
    if outs.len() == 0 {
        OutcomeModel::Failed
    } else {
        outs[0]
    }
}

/// The outcomes behind the next one.
pub open spec fn later_outcomes(outs: Seq<OutcomeModel>) -> Seq<OutcomeModel> {
    if outs.len() == 0 {
        outs
    } else {
        outs.drop_first()
    }
}

/// The links from a row to rows below it.
pub open spec fn links_to(
    schema: SchemaModel,
    table: Seq<char>,
    pk: Seq<char>,
    keys: Seq<(Seq<char>, Seq<char>)>,
) -> Seq<Act>
    decreases keys.len(),
{
    if keys.len() == 0 {
        Seq::empty()
    } else {
        let before = links_to(schema, table, pk, keys.drop_last());
        match junction_of(schema, table, keys.last().0) {
            Some(junction) => before.push(
                Act::Link { junction, parent: pk, child: keys.last().1 },
            ),
            None => before,
        }
    }
}

/// Whether a row was inserted: it was neither refused nor there already.
pub open spec fn counts_row(outcome: OutcomeModel) -> bool {
    match outcome {
        OutcomeModel::Failed => false,
        OutcomeModel::Unkeyed => true,
        OutcomeModel::Keyed { pk, inserted } => inserted,
    }
}

/// Inserting a tree.
pub open spec fn tree_run(schema: SchemaModel, node: NodeModel, outs: Seq<OutcomeModel>) -> Run
    decreases node,
{
    let act = Act::Row { table: node.table_name, attrs: node.attrs };
    let later = later_outcomes(outs);
    if !node.has_data {
        forest_run(schema, node.children, outs)
    } else {
        match next_outcome(outs) {
            OutcomeModel::Failed => Run { errors: 1, acts: seq![act], ..idle_run(later) },
            OutcomeModel::Unkeyed => {
                let below = forest_run(schema, node.children, later);
                Run {
                    keys: Seq::empty(),
                    rows: below.rows + 1,
                    acts: seq![act] + below.acts,
                    ..below
                }
            },
            OutcomeModel::Keyed { pk, inserted } => if inserted {
                let below = forest_run(schema, node.children, later);
                Run {
                    keys: seq![(node.table_name, pk)],
                    rows: below.rows + 1,
                    acts: seq![act] + below.acts + links_to(
                        schema,
                        node.table_name,
                        pk,
                        below.keys,
                    ),
                    ..below
                }
            } else {
                Run {
                    keys: seq![(node.table_name, pk)],
                    acts: seq![act],
                    ..idle_run(later)
                }
            },
        }
    }
}

/// Inserting several trees, one after the other.
pub open spec fn forest_run(
    schema: SchemaModel,
    nodes: Seq<NodeModel>,
    outs: Seq<OutcomeModel>,
) -> Run
    decreases nodes,
{
    if nodes.len() == 0 {
        idle_run(outs)
    } else {
        let first = tree_run(schema, nodes[0], outs);
        let others = forest_run(schema, nodes.drop_first(), first.rest);
        Run {
            keys: first.keys + others.keys,
            rows: first.rows + others.rows,
            errors: first.errors + others.errors,
            acts: first.acts + others.acts,
            rest: others.rest,
        }
    }
}

/// Where the key of a row was there already, the row is skipped: it counts neither
/// as a row nor as an error, and nothing below it is written, neither rows nor
/// links.
pub proof fn law_present_key_skips_tree(
    schema: SchemaModel,
    node: NodeModel,
    pk: Seq<char>,
    outs: Seq<OutcomeModel>,
)
    requires
        node.has_data,
    ensures
        ({
            let run = tree_run(
                schema,
                node,
                seq![OutcomeModel::Keyed { pk, inserted: false }] + outs,
            );
            &&& run.acts == seq![Act::Row { table: node.table_name, attrs: node.attrs }]
            &&& run.keys == seq![(node.table_name, pk)]
            &&& run.rows == 0
            &&& run.errors == 0
            &&& run.rest == outs
        }),
{
    let all = seq![OutcomeModel::Keyed { pk, inserted: false }] + outs;
    assert(all[0] == (OutcomeModel::Keyed { pk, inserted: false }));
    assert(all.drop_first() =~= outs);
}

/// Where a row is refused, nothing below it is written, and nothing above it
/// is linked to it.
pub proof fn law_refused_row_skips_tree(
    schema: SchemaModel,
    node: NodeModel,
    outs: Seq<OutcomeModel>,
)
    requires
        node.has_data,
    ensures
        ({
            let run = tree_run(schema, node, seq![OutcomeModel::Failed] + outs);
            &&& run.acts == seq![Act::Row { table: node.table_name, attrs: node.attrs }]
            &&& run.keys.len() == 0
            &&& run.rows == 0
            &&& run.errors == 1
            &&& run.rest == outs
        }),
{
    let all = seq![OutcomeModel::Failed] + outs;
    assert(all[0] == OutcomeModel::Failed);
    assert(all.drop_first() =~= outs);
}

// ---------------------------------------------------------------------------
// The work that is under way
// ---------------------------------------------------------------------------

/// What the children that are being inserted belong to.
#[derive(Debug)]
pub enum Owner {
    /// A node without a row, or no node at all.
    Container,
    /// A node whose row has a key.
    Keyed { table: String, pk: String },
    /// A node whose row has no key.
    Unkeyed,
}

/// What the children that are being inserted belong to.
pub enum OwnerModel {
    Container,
    Keyed { table: Seq<char>, pk: Seq<char> },
    Unkeyed,
}

impl DeepView for Owner {
    type V = OwnerModel;

    open spec fn deep_view(&self) -> OwnerModel {
        match self {
            Owner::Container => OwnerModel::Container,
            Owner::Keyed { table, pk } => OwnerModel::Keyed { table: table@, pk: pk@ },
            Owner::Unkeyed => OwnerModel::Unkeyed,
        }
    }
}

/// Children that are being inserted.
#[derive(Debug)]
pub struct Frame {
    pub owner: Owner,
    /// The children that are still to come, the next one last.
    pub waiting: Vec<ParsedNode>,
    pub found: Vec<(String, String)>,
}

/// Children that are being inserted, the next one first.
pub struct FrameModel {
    pub owner: OwnerModel,
    pub children: Seq<NodeModel>,
    pub found: Seq<(Seq<char>, Seq<char>)>,
}

impl DeepView for Frame {
    type V = FrameModel;

    open spec fn deep_view(&self) -> FrameModel {
        FrameModel {
            owner: self.owner.deep_view(),
            children: parsed::node_models(self.waiting@).reverse(),
            found: self.found.deep_view(),
        }
    }
}

/// The links to write once all children are in.
pub open spec fn closing_links(
    schema: SchemaModel,
    owner: OwnerModel,
    found: Seq<(Seq<char>, Seq<char>)>,
) -> Seq<Act> {
    match owner {
        OwnerModel::Keyed { table, pk } => links_to(schema, table, pk, found),
        _ => Seq::empty(),
    }
}

/// The keys to hand on once all children are in.
pub open spec fn closing_keys(owner: OwnerModel, found: Seq<(Seq<char>, Seq<char>)>) -> Seq<
    (Seq<char>, Seq<char>),
> {
    match owner {
        OwnerModel::Container => found,
        OwnerModel::Keyed { table, pk } => seq![(table, pk)],
        OwnerModel::Unkeyed => Seq::empty(),
    }
}

/// The work with keys that were found for the children on top.
pub open spec fn with_found(stack: Seq<FrameModel>, keys: Seq<(Seq<char>, Seq<char>)>) -> Seq<
    FrameModel,
> {
    if stack.len() == 0 {
        stack
    } else {
        stack.update(
            stack.len() - 1,
            FrameModel { found: stack.last().found + keys, ..stack.last() },
        )
    }
}

/// What is left to be done.
pub open spec fn stack_run(
    schema: SchemaModel,
    stack: Seq<FrameModel>,
    outs: Seq<OutcomeModel>,
) -> Run
    decreases stack.len(),
{
    if stack.len() == 0 {
        idle_run(outs)
    } else {
        let top = stack.last();
        let below = forest_run(schema, top.children, outs);
        let found = top.found + below.keys;
        let others = stack_run(
            schema,
            with_found(stack.drop_last(), closing_keys(top.owner, found)),
            below.rest,
        );
        Run {
            keys: Seq::empty(),
            rows: below.rows + others.rows,
            errors: below.errors + others.errors,
            acts: below.acts + closing_links(schema, top.owner, found) + others.acts,
            rest: others.rest,
        }
    }
}

/// What is left to be done where a tree comes before everything else.
pub open spec fn next_run(
    schema: SchemaModel,
    node: NodeModel,
    stack: Seq<FrameModel>,
    outs: Seq<OutcomeModel>,
) -> Run {
    let first = tree_run(schema, node, outs);
    let others = stack_run(schema, with_found(stack, first.keys), first.rest);
    Run {
        keys: Seq::empty(),
        rows: first.rows + others.rows,
        errors: first.errors + others.errors,
        acts: first.acts + others.acts,
        rest: others.rest,
    }
}

/// A run that is preceded by some acts.
pub open spec fn preceded(acts: Seq<Act>, run: Run) -> Run {
    Run { acts: acts + run.acts, ..run }
}

/// The children on top without the next one.
pub open spec fn without_next(stack: Seq<FrameModel>) -> Seq<FrameModel> {
    stack.update(
        stack.len() - 1,
        FrameModel { children: stack.last().children.drop_first(), ..stack.last() },
    )
}

proof fn lemma_take_child(schema: SchemaModel, stack: Seq<FrameModel>, outs: Seq<OutcomeModel>)
    requires
        stack.len() > 0,
        stack.last().children.len() > 0,
    ensures
        stack_run(schema, stack, outs) == next_run(
            schema,
            stack.last().children[0],
            without_next(stack),
            outs,
        ),
{
    let top = stack.last();
    let first = tree_run(schema, top.children[0], outs);
    let rest = forest_run(schema, top.children.drop_first(), first.rest);
    let moved = with_found(without_next(stack), first.keys);
    assert(moved.drop_last() =~= stack.drop_last());
    assert(moved.last().found + rest.keys =~= top.found + (first.keys + rest.keys));
    let a = stack_run(schema, stack, outs);
    let b = next_run(schema, top.children[0], without_next(stack), outs);
    assert(a.acts =~= b.acts);
}

proof fn lemma_container(
    schema: SchemaModel,
    node: NodeModel,
    stack: Seq<FrameModel>,
    outs: Seq<OutcomeModel>,
)
    requires
        !node.has_data,
    ensures
        next_run(schema, node, stack, outs) == stack_run(
            schema,
            stack.push(
                FrameModel {
                    owner: OwnerModel::Container,
                    children: node.children,
                    found: Seq::empty(),
                },
            ),
            outs,
        ),
{
    let frame = FrameModel {
        owner: OwnerModel::Container,
        children: node.children,
        found: Seq::empty(),
    };
    let below = forest_run(schema, node.children, outs);
    assert(frame.found + below.keys =~= below.keys);
    assert(stack.push(frame).drop_last() =~= stack);
    let a = next_run(schema, node, stack, outs);
    let b = stack_run(schema, stack.push(frame), outs);
    assert(a.acts =~= b.acts);
}

proof fn lemma_closed(schema: SchemaModel, stack: Seq<FrameModel>, outs: Seq<OutcomeModel>)
    requires
        stack.len() > 0,
        stack.last().children.len() == 0,
    ensures
        stack_run(schema, stack, outs) == preceded(
            closing_links(schema, stack.last().owner, stack.last().found),
            stack_run(
                schema,
                with_found(
                    stack.drop_last(),
                    closing_keys(stack.last().owner, stack.last().found),
                ),
                outs,
            ),
        ),
{
    let top = stack.last();
    assert(top.found + Seq::<(Seq<char>, Seq<char>)>::empty() =~= top.found);
    let others = stack_run(
        schema,
        with_found(stack.drop_last(), closing_keys(top.owner, top.found)),
        outs,
    );
    let links = closing_links(schema, top.owner, top.found);
    assert(Seq::<Act>::empty() + links + others.acts =~= links + others.acts);
}

/// The work after the outcome of the row of a node.
pub open spec fn after_outcome(
    node: NodeModel,
    stack: Seq<FrameModel>,
    outcome: OutcomeModel,
) -> Seq<FrameModel> {
    match outcome {
        OutcomeModel::Failed => stack,
        OutcomeModel::Unkeyed => stack.push(
            FrameModel {
                owner: OwnerModel::Unkeyed,
                children: node.children,
                found: Seq::empty(),
            },
        ),
        OutcomeModel::Keyed { pk, inserted } => if inserted {
            stack.push(
                FrameModel {
                    owner: OwnerModel::Keyed { table: node.table_name, pk },
                    children: node.children,
                    found: Seq::empty(),
                },
            )
        } else {
            with_found(stack, seq![(node.table_name, pk)])
        },
    }
}

proof fn lemma_outcome(
    schema: SchemaModel,
    node: NodeModel,
    stack: Seq<FrameModel>,
    outcome: OutcomeModel,
    outs: Seq<OutcomeModel>,
)
    requires
        node.has_data,
    ensures
        ({
            let done = next_run(schema, node, stack, seq![outcome] + outs);
            let left = stack_run(schema, after_outcome(node, stack, outcome), outs);
            &&& done.acts == seq![Act::Row { table: node.table_name, attrs: node.attrs }]
                + left.acts
            &&& done.rows == left.rows + (if counts_row(outcome) {
                1nat
            } else {
                0nat
            })
            &&& done.errors == left.errors + (if outcome is Failed {
                1nat
            } else {
                0nat
            })
            &&& done.rest == left.rest
        }),
{
    let act = Act::Row { table: node.table_name, attrs: node.attrs };
    let all = seq![outcome] + outs;
    assert(all.drop_first() =~= outs);
    assert(all[0] == outcome);
    let done = next_run(schema, node, stack, all);
    let after = after_outcome(node, stack, outcome);
    let left = stack_run(schema, after, outs);
    let below = forest_run(schema, node.children, outs);
    let none = Seq::<(Seq<char>, Seq<char>)>::empty();
    assert(none + below.keys =~= below.keys);
    match outcome {
        OutcomeModel::Failed => {
            if stack.len() > 0 {
                assert(stack.last().found + none =~= stack.last().found);
                assert(with_found(stack, none) =~= stack);
            }
        },
        OutcomeModel::Unkeyed => {
            assert(after.drop_last() =~= stack);
            assert(done.acts =~= seq![act] + left.acts);
        },
        OutcomeModel::Keyed { pk, inserted } => {
            if inserted {
                assert(after.drop_last() =~= stack);
                assert(done.acts =~= seq![act] + left.acts);
            }
        },
    }
}

/// A measure of the work that is left.
pub open spec fn forest_size(nodes: Seq<NodeModel>) -> nat
    decreases nodes,
{
    if nodes.len() == 0 {
        0
    } else {
        tree_size(nodes[0]) + forest_size(nodes.drop_first())
    }
}

/// A measure of a tree.
pub open spec fn tree_size(node: NodeModel) -> nat
    decreases node,
{
    2 + forest_size(node.children)
}

/// A measure of the work that is left.
pub open spec fn stack_size(stack: Seq<FrameModel>) -> nat
    decreases stack.len(),
{
    if stack.len() == 0 {
        0
    } else {
        stack_size(stack.drop_last()) + 1 + forest_size(stack.last().children)
    }
}

proof fn lemma_found_size(stack: Seq<FrameModel>, keys: Seq<(Seq<char>, Seq<char>)>)
    ensures
        stack_size(with_found(stack, keys)) == stack_size(stack),
{
    if stack.len() > 0 {
        assert(with_found(stack, keys).drop_last() =~= stack.drop_last());
    }
}

/// A link of two rows.
#[derive(Debug)]
pub struct Link {
    pub junction: String,
    pub parent: String,
    pub child: String,
}

impl DeepView for Link {
    type V = Act;

    open spec fn deep_view(&self) -> Act {
        Act::Link { junction: self.junction@, parent: self.parent@, child: self.child@ }
    }
}

/// Trees that are being inserted.
#[derive(Debug)]
pub struct TreeInsert {
    pub stack: Vec<Frame>,
    /// The node whose row is being inserted.
    pub current: Option<ParsedNode>,
}

/// The links from a row to rows below it.
#[verifier::loop_isolation(false)]
fn make_links(
    schema: &DiscoveredSchema,
    table: &str,
    pk: &str,
    keys: &Vec<(String, String)>,
    links: &mut Vec<Link>,
)
    ensures
        final(links).deep_view() == old(links).deep_view() + links_to(
            schema.deep_view(),
            table@,
            pk@,
            keys.deep_view(),
        ),
{
    let ghost start = links.deep_view();
    let ghost all = keys.deep_view();
    let ghost model = schema.deep_view();
    assert(start + links_to(model, table@, pk@, all.take(0)) =~= start);
    let mut i: usize = 0;
    while i < keys.len()
        invariant
            i <= keys@.len(),
            all == keys.deep_view(),
            model == schema.deep_view(),
            links.deep_view() == start + links_to(model, table@, pk@, all.take(i as int)),
        decreases keys@.len() - i,
    {
        assert(all.take(i + 1).drop_last() =~= all.take(i as int));
        assert(all[i as int] == keys@[i as int].deep_view());
        let ghost before = links.deep_view();
        match find_junction_table(schema, table, keys[i].0.as_str()) {
            Some(junction) => {
                let link = Link { junction, parent: crate::text::owned(pk), child: keys[i].1.clone() };
                links.push(link);
                assert(links.deep_view() =~= before.push(link.deep_view()));
                assert(links.deep_view() =~= start + links_to(
                    model,
                    table@,
                    pk@,
                    all.take(i + 1),
                ));
            },
            None => {},
        }
        i += 1;
    }
    assert(all.take(i as int) =~= all);
}

/// Nodes in the opposite order.
#[verifier::loop_isolation(false)]
fn backward(nodes: Vec<ParsedNode>) -> (r: Vec<ParsedNode>)
    ensures
        parsed::node_models(r@).reverse() == parsed::node_models(nodes@),
{
    let ghost all = nodes@;
    let mut from = nodes;
    let mut r: Vec<ParsedNode> = Vec::new();
    while from.len() > 0
        invariant
            from@.len() + r@.len() == all.len(),
            from@ == all.take(from@.len() as int),
            r@ == all.skip(from@.len() as int).reverse(),
        decreases from@.len(),
    {
        match from.pop() {
            Some(node) => {
                r.push(node);
            },
            None => {},
        }
        assert(from@ =~= all.take(from@.len() as int));
        assert(r@ =~= all.skip(from@.len() as int).reverse());
    }
    assert(r@ =~= all.reverse());
    proof {
        parsed::lemma_node_models(r@);
        parsed::lemma_node_models(all);
    }
    assert(parsed::node_models(r@).reverse() =~= parsed::node_models(all));
    r
}

fn add_found(stack: &mut Vec<Frame>, keys: Vec<(String, String)>)
    ensures
        final(stack).deep_view() == with_found(old(stack).deep_view(), keys.deep_view()),
{
    let ghost before = stack.deep_view();
    let ghost held = stack@;
    let n: usize = stack.len();
    assert(before.len() == n);
    if n > 0 {
        let mut more = keys;
        let ghost found = held[n - 1].found.deep_view();
        stack[n - 1].found.append(&mut more);
        assert(stack@[n - 1].found.deep_view() =~= found + keys.deep_view());
        assert(stack.deep_view() =~= with_found(before, keys.deep_view()));
    }
}

fn one_key(table: String, pk: String) -> (r: Vec<(String, String)>)
    ensures
        r.deep_view() == seq![(table@, pk@)],
{
    let r: Vec<(String, String)> = vec![(table, pk)];
    assert(r.deep_view() =~= seq![(table@, pk@)]);
    r
}

fn push_frame(stack: &mut Vec<Frame>, owner: Owner, children: Vec<ParsedNode>)
    ensures
        final(stack).deep_view() == old(stack).deep_view().push(
            FrameModel {
                owner: owner.deep_view(),
                children: parsed::node_models(children@),
                found: Seq::empty(),
            },
        ),
{
    let ghost before = stack.deep_view();
    let frame = Frame { owner, waiting: backward(children), found: Vec::new() };
    assert(frame.found.deep_view() =~= Seq::<(Seq<char>, Seq<char>)>::empty());
    stack.push(frame);
    assert(stack.deep_view() =~= before.push(frame.deep_view()));
}

/// Takes the children on top away: their links, and their keys for the children
/// below.
fn close_frame(stack: &mut Vec<Frame>, schema: &DiscoveredSchema, links: &mut Vec<Link>)
    requires
        old(stack)@.len() > 0,
    ensures
        ({
            let top = old(stack).deep_view().last();
            &&& final(links).deep_view() == old(links).deep_view() + closing_links(
                schema.deep_view(),
                top.owner,
                top.found,
            )
            &&& final(stack).deep_view() == with_found(
                old(stack).deep_view().drop_last(),
                closing_keys(top.owner, top.found),
            )
        }),
{
    let ghost before = stack.deep_view();
    let ghost written = links.deep_view();
    match stack.pop() {
        Some(frame) => {
            assert(before.last() == frame.deep_view());
            assert(stack.deep_view() =~= before.drop_last());
            match frame.owner {
                Owner::Container => {
                    assert(written + Seq::<Act>::empty() =~= written);
                    add_found(stack, frame.found);
                },
                Owner::Keyed { table, pk } => {
                    make_links(schema, table.as_str(), pk.as_str(), &frame.found, links);
                    add_found(stack, one_key(table, pk));
                },
                Owner::Unkeyed => {
                    assert(written + Seq::<Act>::empty() =~= written);
                    let none: Vec<(String, String)> = Vec::new();
                    assert(none.deep_view() =~= Seq::<(Seq<char>, Seq<char>)>::empty());
                    add_found(stack, none);
                },
            }
        },
        None => {},
    }
}

/// Takes the next child on top.
fn take_next(stack: &mut Vec<Frame>) -> (r: Option<ParsedNode>)
    ensures
        match r {
            Some(node) => {
                &&& old(stack)@.len() > 0
                &&& old(stack).deep_view().last().children.len() > 0
                &&& node.deep_view() == old(stack).deep_view().last().children[0]
                &&& final(stack).deep_view() == without_next(old(stack).deep_view())
            },
            None => {
                &&& final(stack).deep_view() == old(stack).deep_view()
                &&& final(stack)@.len() == old(stack)@.len()
                &&& old(stack)@.len() > 0 ==> old(stack).deep_view().last().children.len() == 0
            },
        },
{
    let ghost before = stack.deep_view();
    let ghost held = stack@;
    let n: usize = stack.len();
    if n == 0 {
        return None;
    }
    let ghost waiting = held[n - 1].waiting@;
    proof {
        parsed::lemma_node_models(waiting);
        assert(before.last() == held[n - 1].deep_view());
    }
    let r = stack[n - 1].waiting.pop();
    match &r {
        Some(node) => {
            proof {
                parsed::lemma_node_models(waiting.drop_last());
                assert(stack@[n - 1].waiting@ =~= waiting.drop_last());
                assert(parsed::node_models(waiting.drop_last()).reverse() =~= parsed::node_models(
                    waiting,
                ).reverse().drop_first());
                assert(stack.deep_view() =~= without_next(before));
            }
        },
        None => {
            assert(stack@[n - 1].waiting@ =~= waiting);
            assert(stack.deep_view() =~= before);
        },
    }
    r
}

impl TreeInsert {
    /// The run that is left, if `outs` are the outcomes of the rows to come.
    pub open spec fn left(&self, schema: SchemaModel, outs: Seq<OutcomeModel>) -> Run {
        match self.current {
            Some(node) => next_run(schema, node.deep_view(), self.stack.deep_view(), outs),
            None => stack_run(schema, self.stack.deep_view(), outs),
        }
    }

    /// Trees of which nothing is inserted yet.
    pub fn new(roots: Vec<ParsedNode>) -> (r: Self)
        ensures
            r.current is None,
            forall|schema: SchemaModel, outs: Seq<OutcomeModel>|
                {
                    let all = forest_run(schema, parsed::node_models(roots@), outs);
                    let left = #[trigger] r.left(schema, outs);
                    &&& left.acts == all.acts
                    &&& left.rows == all.rows
                    &&& left.errors == all.errors
                },
    {
        let mut stack: Vec<Frame> = Vec::new();
        assert(stack.deep_view() =~= Seq::<FrameModel>::empty());
        push_frame(&mut stack, Owner::Container, roots);
        let r = TreeInsert { stack, current: None };
        proof {
            let models = parsed::node_models(roots@);
            assert forall|schema: SchemaModel, outs: Seq<OutcomeModel>| #[trigger]
                r.left(schema, outs).acts == forest_run(schema, models, outs).acts && r.left(
                schema,
                outs,
            ).rows == forest_run(schema, models, outs).rows && r.left(schema, outs).errors
                == forest_run(schema, models, outs).errors by {
                reveal_with_fuel(stack_run, 2);
                let stacked = r.stack.deep_view();
                assert(stacked.last().found + forest_run(schema, models, outs).keys
                    =~= forest_run(schema, models, outs).keys);
                assert(stacked.drop_last() =~= Seq::<FrameModel>::empty());
                let all = forest_run(schema, models, outs);
                assert(r.left(schema, outs).acts =~= all.acts);
            }
        }
        r
    }

    /// Goes on to the next row. The links are to be written first. After the last
    /// row there is no next one.
    #[verifier::loop_isolation(false)]
    pub fn advance(&mut self, schema: &DiscoveredSchema) -> (links: Vec<Link>)
        requires
            old(self).current is None,
        ensures
            forall|outs: Seq<OutcomeModel>| #[trigger]
                old(self).left(schema.deep_view(), outs) == preceded(
                    links.deep_view(),
                    final(self).left(schema.deep_view(), outs),
                ),
            match final(self).current {
                Some(node) => node.has_data,
                None => final(self).stack@.len() == 0,
            },
    {
        let ghost model = schema.deep_view();
        let ghost start = self.stack.deep_view();
        let mut links: Vec<Link> = Vec::new();
        proof {
            assert(links.deep_view() =~= Seq::<Act>::empty());
            assert forall|outs: Seq<OutcomeModel>| #[trigger]
                stack_run(model, start, outs) == preceded(
                    links.deep_view(),
                    stack_run(model, self.stack.deep_view(), outs),
                ) by {
                let run = stack_run(model, start, outs);
                assert(Seq::<Act>::empty() + run.acts =~= run.acts);
            }
        }
        while self.stack.len() > 0
            invariant
                self.current is None,
                forall|outs: Seq<OutcomeModel>| #[trigger]
                    stack_run(model, start, outs) == preceded(
                        links.deep_view(),
                        stack_run(model, self.stack.deep_view(), outs),
                    ),
            decreases stack_size(self.stack.deep_view()),
        {
            let ghost before = self.stack.deep_view();
            let ghost written = links.deep_view();
            assert(before.len() == self.stack@.len());
            match take_next(&mut self.stack) {
                Some(node) => {
                    let ghost rest = self.stack.deep_view();
                    proof {
                        assert(rest.drop_last() =~= before.drop_last());
                        assert forall|outs: Seq<OutcomeModel>| #[trigger]
                            stack_run(model, start, outs) == preceded(
                                written,
                                next_run(model, node.deep_view(), rest, outs),
                            ) by {
                            lemma_take_child(model, before, outs);
                        }
                    }
                    if node.has_data {
                        self.current = Some(node);
                        return links;
                    }
                    let ghost model_node = node.deep_view();
                    push_frame(&mut self.stack, Owner::Container, node.children);
                    proof {
                        assert(self.stack.deep_view().drop_last() =~= rest);
                        assert(stack_size(before) == stack_size(rest) + tree_size(model_node));
                        assert(stack_size(self.stack.deep_view()) == stack_size(rest) + 1
                            + forest_size(model_node.children));
                        assert forall|outs: Seq<OutcomeModel>| #[trigger]
                            stack_run(model, start, outs) == preceded(
                                written,
                                stack_run(model, self.stack.deep_view(), outs),
                            ) by {
                            lemma_container(model, model_node, rest, outs);
                        }
                    }
                },
                None => {
                    close_frame(&mut self.stack, schema, &mut links);
                    proof {
                        let top = before.last();
                        lemma_found_size(
                            before.drop_last(),
                            closing_keys(top.owner, top.found),
                        );
                        assert forall|outs: Seq<OutcomeModel>| #[trigger]
                            stack_run(model, start, outs) == preceded(
                                links.deep_view(),
                                stack_run(model, self.stack.deep_view(), outs),
                            ) by {
                            lemma_closed(model, before, outs);
                            let run = stack_run(model, self.stack.deep_view(), outs);
                            let own = closing_links(model, top.owner, top.found);
                            assert(written + (own + run.acts) =~= (written + own) + run.acts);
                        }
                    }
                },
            }
        }
        links
    }

    /// Takes note of the outcome of the row at hand. It says whether the row was
    /// inserted.
    pub fn report(&mut self, outcome: RowOutcome) -> (counts: bool)
        requires
            old(self).current matches Some(node) && node.has_data,
        ensures
            final(self).current is None,
            counts == counts_row(outcome.deep_view()),
            forall|schema: SchemaModel, outs: Seq<OutcomeModel>|
                {
                    let done = old(self).left(schema, seq![outcome.deep_view()] + outs);
                    let left = #[trigger] final(self).left(schema, outs);
                    let node = old(self).current->0.deep_view();
                    &&& done.acts == seq![Act::Row { table: node.table_name, attrs: node.attrs }]
                        + left.acts
                    &&& done.rows == left.rows + (if counts {
                        1nat
                    } else {
                        0nat
                    })
                    &&& done.errors == left.errors + (if outcome is Failed {
                        1nat
                    } else {
                        0nat
                    })
                    &&& done.rest == left.rest
                },
    {
        let ghost stack = self.stack.deep_view();
        let ghost model = self.current->0.deep_view();
        let ghost first = outcome.deep_view();
        let mut counts = true;
        match self.current.take() {
            Some(node) => match outcome {
                RowOutcome::Failed => {
                    counts = false;
                },
                RowOutcome::Unkeyed => {
                    push_frame(&mut self.stack, Owner::Unkeyed, node.children);
                },
                RowOutcome::Keyed { pk, inserted } => {
                    if inserted {
                        push_frame(
                            &mut self.stack,
                            Owner::Keyed { table: node.table_name, pk },
                            node.children,
                        );
                    } else {
                        counts = false;
                        add_found(&mut self.stack, one_key(node.table_name, pk));
                    }
                },
            },
            None => {},
        }
        proof {
            assert(self.stack.deep_view() == after_outcome(model, stack, first));
            assert forall|schema: SchemaModel, outs: Seq<OutcomeModel>|
                {
                    let done = old(self).left(schema, seq![first] + outs);
                    let left = #[trigger] self.left(schema, outs);
                    &&& done.acts == seq![Act::Row { table: model.table_name, attrs: model.attrs }]
                        + left.acts
                    &&& done.rows == left.rows + (if counts {
                        1nat
                    } else {
                        0nat
                    })
                    &&& done.errors == left.errors + (if first is Failed {
                        1nat
                    } else {
                        0nat
                    })
                    &&& done.rest == left.rest
                } by {
                lemma_outcome(schema, model, stack, first, outs);
            }
        }
        counts
    }
}

} // verus!
