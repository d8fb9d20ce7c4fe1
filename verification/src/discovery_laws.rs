//! What holds of all that is discovered: nothing that the files hold is left out.

use vstd::prelude::*;
use crate::discovery;
use crate::discovery::{DiscoveryModel, RawModel};
use crate::files;
use crate::models::{LsxNode, LsxRegion, NodeAttributeModel};
use crate::order;
use crate::reference_laws;
use crate::schema::{ColumnDef, ColumnModel, JunctionDef, JunctionModel, PkStrategy, TableModel};
use crate::schema_build;
use crate::schema_laws;
use crate::text;
use crate::textmap;
use crate::types;

verus! {

// ---------------------------------------------------------------------------
// What is known only grows
// ---------------------------------------------------------------------------

/// Whether a list of kinds of nodes holds one for a region.
pub open spec fn region_has(
    regions: Seq<(Seq<char>, Seq<Seq<char>>)>,
    region: Seq<char>,
    node: Seq<char>,
) -> bool {
    textmap::value_of(regions, region) matches Some(list) && list.contains(node)
}

/// Whether all that is known of a table is still known.
pub open spec fn table_grows(a: RawModel, b: RawModel) -> bool {
    &&& forall|c: Seq<char>| #[trigger]
        textmap::has_key(a.columns, c) ==> textmap::value_of(b.columns, c) == textmap::value_of(
            a.columns,
            c,
        )
    &&& forall|p: Seq<char>| #[trigger] a.parent_tables.contains(p) ==> b.parent_tables.contains(p)
    &&& a.is_root ==> b.is_root
    &&& a.has_parent ==> b.has_parent
    &&& a.source_type == b.source_type
    &&& a.region_id is Some ==> a.region_id == b.region_id
    &&& a.node_id is Some ==> a.node_id == b.node_id
}

/// Whether all that is known is still known.
pub open spec fn grows(a: DiscoveryModel, b: DiscoveryModel) -> bool {
    &&& forall|n: Seq<char>| #[trigger]
        textmap::has_key(a.tables, n) ==> textmap::has_key(b.tables, n) && table_grows(
            textmap::value_of(a.tables, n)->0,
            textmap::value_of(b.tables, n)->0,
        )
    &&& forall|r: Seq<char>, x: Seq<char>| #[trigger]
        region_has(a.regions, r, x) ==> region_has(b.regions, r, x)
}

/// Setting a value changes that key and no other.
pub proof fn lemma_set<T>(m: Seq<(Seq<char>, T)>, k: Seq<char>, v: T, other: Seq<char>)
    ensures
        textmap::value_of(textmap::with_value(m, k, v), k) == Some(v),
        other != k ==> textmap::value_of(textmap::with_value(m, k, v), other) == textmap::value_of(
            m,
            other,
        ),
{
    let n = textmap::with_value(m, k, v);
    textmap::lemma_key_pos(m, k);
    textmap::lemma_key_pos(m, other);
    textmap::lemma_key_pos(n, k);
    textmap::lemma_key_pos(n, other);
    match textmap::key_pos(m, k) {
        Some(i) => {
            assert forall|j: int| 0 <= j < i implies (#[trigger] n[j]).0 != k by {
                assert(n[j] == m[j]);
            }
            textmap::lemma_key_pos_is(n, k, i);
            if other != k {
                match textmap::key_pos(m, other) {
                    Some(o) => {
                        assert(n[o] == m[o]);
                        assert forall|j: int| 0 <= j < o implies (#[trigger] n[j]).0 != other by {
                            assert(m[j].0 != other);
                        }
                        textmap::lemma_key_pos_is(n, other, o);
                    },
                    None => {
                        if textmap::key_pos(n, other) is Some {
                            let o = textmap::key_pos(n, other)->0;
                            assert(m[o].0 != other);
                        }
                    },
                }
            }
        },
        None => {
            assert forall|j: int| 0 <= j < m.len() implies (#[trigger] n[j]).0 != k by {
                assert(n[j] == m[j]);
            }
            textmap::lemma_key_pos_is(n, k, m.len() as int);
            if other != k {
                match textmap::key_pos(m, other) {
                    Some(o) => {
                        assert(n[o] == m[o]);
                        assert forall|j: int| 0 <= j < o implies (#[trigger] n[j]).0 != other by {
                            assert(m[j].0 != other);
                        }
                        textmap::lemma_key_pos_is(n, other, o);
                    },
                    None => {
                        if textmap::key_pos(n, other) is Some {
                            let o = textmap::key_pos(n, other)->0;
                            assert(o < m.len() ==> m[o].0 != other);
                        }
                    },
                }
            }
        },
    }
}

proof fn lemma_grows_both(a: DiscoveryModel, b: DiscoveryModel, c: DiscoveryModel)
    requires
        grows(a, b),
        grows(b, c),
    ensures
        grows(a, c),
{
    assert forall|n: Seq<char>| #[trigger]
        textmap::has_key(a.tables, n) implies textmap::has_key(c.tables, n) && table_grows(
        textmap::value_of(a.tables, n)->0,
        textmap::value_of(c.tables, n)->0,
    ) by {
        assert(textmap::has_key(b.tables, n));
        let x = textmap::value_of(a.tables, n)->0;
        let y = textmap::value_of(b.tables, n)->0;
        let z = textmap::value_of(c.tables, n)->0;
        assert(table_grows(x, y));
        assert(table_grows(y, z));
        assert forall|k: Seq<char>| #[trigger]
            textmap::has_key(x.columns, k) implies textmap::value_of(z.columns, k)
            == textmap::value_of(x.columns, k) by {
            assert(textmap::value_of(y.columns, k) == textmap::value_of(x.columns, k));
            assert(textmap::has_key(y.columns, k));
        }
    }
    assert forall|r: Seq<char>, x: Seq<char>| #[trigger]
        region_has(a.regions, r, x) implies region_has(c.regions, r, x) by {
        assert(region_has(b.regions, r, x));
    }
}

proof fn lemma_member(list: Seq<Seq<char>>, x: Seq<char>)
    ensures
        textmap::with_member(list, x).contains(x),
        forall|y: Seq<char>| #[trigger]
            list.contains(y) ==> textmap::with_member(list, x).contains(y),
{
    let r = textmap::with_member(list, x);
    if !list.contains(x) {
        assert(r[list.len() as int] == x);
    }
    assert forall|y: Seq<char>| #[trigger] list.contains(y) implies r.contains(y) by {
        let i = choose|i: int| 0 <= i < list.len() && list[i] == y;
        assert(r[i] == y);
    }
}

proof fn lemma_members(list: Seq<Seq<char>>, more: Seq<Seq<char>>)
    ensures
        forall|y: Seq<char>| #[trigger]
            list.contains(y) ==> discovery::with_members(list, more).contains(y),
        forall|y: Seq<char>| #[trigger]
            more.contains(y) ==> discovery::with_members(list, more).contains(y),
    decreases more.len(),
{
    if more.len() > 0 {
        let d = more.drop_last();
        lemma_members(list, d);
        lemma_member(discovery::with_members(list, d), more.last());
        let r = discovery::with_members(list, more);
        assert forall|y: Seq<char>| #[trigger] more.contains(y) implies r.contains(y) by {
            let i = choose|i: int| 0 <= i < more.len() && more[i] == y;
            if i < d.len() {
                assert(d[i] == y);
                assert(d.contains(y));
                assert(discovery::with_members(list, d).contains(y));
            }
        }
        assert forall|y: Seq<char>| #[trigger] list.contains(y) implies r.contains(y) by {
            assert(discovery::with_members(list, d).contains(y));
        }
    }
}

proof fn lemma_default(m: Seq<(Seq<char>, Seq<char>)>, k: Seq<char>, v: Seq<char>, other: Seq<char>)
    ensures
        textmap::has_key(m, other) ==> textmap::value_of(textmap::with_default(m, k, v), other)
            == textmap::value_of(m, other),
        textmap::has_key(textmap::with_default(m, k, v), k),
{
    if !textmap::has_key(m, k) {
        lemma_set(m, k, v, other);
        assert(textmap::with_value(m, k, v) == m.push((k, v)));
    }
}

proof fn lemma_attribute_columns(columns: Seq<(Seq<char>, Seq<char>)>, a: NodeAttributeModel)
    ensures
        attribute_known(discovery::with_attribute(columns, a), a),
        forall|c: Seq<char>| #[trigger]
            textmap::has_key(columns, c) ==> textmap::value_of(
                discovery::with_attribute(columns, a),
                c,
            ) == textmap::value_of(columns, c),
{
    let valued = if discovery::stores_value(a) {
        textmap::with_default(columns, a.id, a.attr_type)
    } else {
        columns
    };
    let hc = discovery::handle_column(a);
    let handled = if a.handle is Some {
        textmap::with_default(valued, hc, discovery::handle_type(a))
    } else {
        valued
    };
    let vc = a.id + "_version"@;
    assert forall|c: Seq<char>| #[trigger] textmap::has_key(columns, c) implies textmap::value_of(
        discovery::with_attribute(columns, a),
        c,
    ) == textmap::value_of(columns, c) by {
        lemma_default(columns, a.id, a.attr_type, c);
        lemma_default(valued, hc, discovery::handle_type(a), c);
        lemma_default(handled, vc, "int32"@, c);
    }
    lemma_default(columns, a.id, a.attr_type, a.id);
    lemma_default(valued, hc, discovery::handle_type(a), a.id);
    lemma_default(handled, vc, "int32"@, a.id);
    lemma_default(valued, hc, discovery::handle_type(a), hc);
    lemma_default(handled, vc, "int32"@, hc);
    lemma_default(handled, vc, "int32"@, vc);
}

/// Whether an attribute has its columns: one for its value or its handle, one more for
/// its handle where its value is no localized text, and one for the version of a
/// localized text.
pub open spec fn attribute_known(
    columns: Seq<(Seq<char>, Seq<char>)>,
    a: NodeAttributeModel,
) -> bool {
    a.id.len() > 0 && a.id != "_OriginalFileVersion_"@ ==> {
        &&& textmap::has_key(columns, a.id)
        &&& a.handle is Some && a.attr_type != "TranslatedString"@ ==> textmap::has_key(
            columns,
            a.id + "_handle"@,
        )
        &&& a.version is Some && a.attr_type == "TranslatedString"@ ==> textmap::has_key(
            columns,
            a.id + "_version"@,
        )
    }
}

proof fn lemma_attributes_columns(
    columns: Seq<(Seq<char>, Seq<char>)>,
    attrs: Seq<NodeAttributeModel>,
)
    ensures
        forall|i: int|
            0 <= i < attrs.len() ==> attribute_known(
                discovery::with_attributes(columns, attrs),
                #[trigger] attrs[i],
            ),
        forall|c: Seq<char>| #[trigger]
            textmap::has_key(columns, c) ==> textmap::value_of(
                discovery::with_attributes(columns, attrs),
                c,
            ) == textmap::value_of(columns, c),
    decreases attrs.len(),
{
    if attrs.len() > 0 {
        let d = attrs.drop_last();
        lemma_attributes_columns(columns, d);
        let before = discovery::with_attributes(columns, d);
        let after = discovery::with_attributes(columns, attrs);
        lemma_attribute_columns(before, attrs.last());
        assert forall|i: int| 0 <= i < attrs.len() implies attribute_known(
            after,
            #[trigger] attrs[i],
        ) by {
            if i < d.len() {
                assert(d[i] == attrs[i]);
                let a = attrs[i];
                assert(attribute_known(before, a));
                assert(textmap::has_key(before, a.id) ==> textmap::has_key(after, a.id));
                assert(textmap::has_key(before, a.id + "_handle"@) ==> textmap::has_key(
                    after,
                    a.id + "_handle"@,
                ));
                assert(textmap::has_key(before, a.id + "_version"@) ==> textmap::has_key(
                    after,
                    a.id + "_version"@,
                ));
            }
        }
        assert forall|c: Seq<char>| #[trigger]
            textmap::has_key(columns, c) implies textmap::value_of(after, c) == textmap::value_of(
            columns,
            c,
        ) by {
            assert(textmap::has_key(before, c));
        }
    }
}

// ---------------------------------------------------------------------------
// Resource trees
// ---------------------------------------------------------------------------

/// The name that the table of a node has before any is renamed.
pub open spec fn first_name(region_id: Seq<char>, node_id: Seq<char>) -> Seq<char> {
    "lsx__"@ + files::sanitized(region_id) + "__"@ + files::sanitized(node_id)
}

/// Whether all of a node is known, without its children: its table has the columns of its
/// attributes and knows the table above it, and the region knows its kind.
pub open spec fn node_known(
    d: DiscoveryModel,
    region_id: Seq<char>,
    node: LsxNode,
    parent: Option<Seq<char>>,
    is_root: bool,
) -> bool {
    let name = first_name(region_id, node.id@);
    &&& textmap::value_of(d.tables, name) matches Some(t) && {
        &&& forall|k: int|
            0 <= k < node.attributes@.len() ==> attribute_known(
                t.columns,
                (#[trigger] node.attributes@[k]).deep_view(),
            )
        &&& parent matches Some(p) ==> t.has_parent && t.parent_tables.contains(p)
        &&& is_root ==> t.is_root
    }
    &&& region_has(d.regions, region_id, node.id@)
}

/// Whether all of a node and of the nodes below it is known.
pub open spec fn tree_known(
    d: DiscoveryModel,
    region_id: Seq<char>,
    node: LsxNode,
    parent: Option<Seq<char>>,
    is_root: bool,
) -> bool
    decreases node,
{
    &&& node_known(d, region_id, node, parent, is_root)
    &&& forest_known(
        d,
        region_id,
        node.children@,
        Some(first_name(region_id, node.id@)),
        false,
    )
}

/// Whether all of several trees is known.
pub open spec fn forest_known(
    d: DiscoveryModel,
    region_id: Seq<char>,
    nodes: Seq<LsxNode>,
    parent: Option<Seq<char>>,
    is_root: bool,
) -> bool
    decreases nodes,
{
    if nodes.len() == 0 {
        true
    } else {
        &&& forest_known(d, region_id, nodes.drop_last(), parent, is_root)
        &&& tree_known(d, region_id, nodes.last(), parent, is_root)
    }
}

proof fn lemma_node_stays(
    a: DiscoveryModel,
    b: DiscoveryModel,
    region_id: Seq<char>,
    node: LsxNode,
    parent: Option<Seq<char>>,
    is_root: bool,
)
    requires
        grows(a, b),
        node_known(a, region_id, node, parent, is_root),
    ensures
        node_known(b, region_id, node, parent, is_root),
{
    let name = first_name(region_id, node.id@);
    assert(textmap::has_key(a.tables, name));
    let x = textmap::value_of(a.tables, name)->0;
    let y = textmap::value_of(b.tables, name)->0;
    assert(table_grows(x, y));
    assert forall|k: int| 0 <= k < node.attributes@.len() implies attribute_known(
        y.columns,
        (#[trigger] node.attributes@[k]).deep_view(),
    ) by {
        let m = node.attributes@[k].deep_view();
        assert(attribute_known(x.columns, m));
        assert(textmap::has_key(x.columns, m.id) ==> textmap::has_key(y.columns, m.id));
        assert(textmap::has_key(x.columns, m.id + "_handle"@) ==> textmap::has_key(
            y.columns,
            m.id + "_handle"@,
        ));
        assert(textmap::has_key(x.columns, m.id + "_version"@) ==> textmap::has_key(
            y.columns,
            m.id + "_version"@,
        ));
    }
    assert(region_has(a.regions, region_id, node.id@));
}

proof fn lemma_tree_stays(
    a: DiscoveryModel,
    b: DiscoveryModel,
    region_id: Seq<char>,
    node: LsxNode,
    parent: Option<Seq<char>>,
    is_root: bool,
)
    requires
        grows(a, b),
        tree_known(a, region_id, node, parent, is_root),
    ensures
        tree_known(b, region_id, node, parent, is_root),
    decreases node,
{
    lemma_node_stays(a, b, region_id, node, parent, is_root);
    lemma_forest_stays(
        a,
        b,
        region_id,
        node.children@,
        Some(first_name(region_id, node.id@)),
        false,
    );
}

proof fn lemma_forest_stays(
    a: DiscoveryModel,
    b: DiscoveryModel,
    region_id: Seq<char>,
    nodes: Seq<LsxNode>,
    parent: Option<Seq<char>>,
    is_root: bool,
)
    requires
        grows(a, b),
        forest_known(a, region_id, nodes, parent, is_root),
    ensures
        forest_known(b, region_id, nodes, parent, is_root),
    decreases nodes,
{
    if nodes.len() > 0 {
        lemma_forest_stays(a, b, region_id, nodes.drop_last(), parent, is_root);
        lemma_tree_stays(a, b, region_id, nodes.last(), parent, is_root);
    }
}

proof fn lemma_with_region(
    regions: Seq<(Seq<char>, Seq<Seq<char>>)>,
    region: Seq<char>,
    nodes: Seq<Seq<char>>,
)
    ensures
        forall|r: Seq<char>, x: Seq<char>| #[trigger]
            region_has(regions, r, x) ==> region_has(
                discovery::with_region(regions, region, nodes),
                r,
                x,
            ),
        forall|x: Seq<char>| #[trigger]
            nodes.contains(x) ==> region_has(
                discovery::with_region(regions, region, nodes),
                region,
                x,
            ),
{
    let base = match textmap::value_of(regions, region) {
        Some(list) => list,
        None => Seq::empty(),
    };
    let list = discovery::with_members(base, nodes);
    lemma_members(base, nodes);
    lemma_set(regions, region, list, region);
    let after = discovery::with_region(regions, region, nodes);
    assert forall|r: Seq<char>, x: Seq<char>| #[trigger]
        region_has(regions, r, x) implies region_has(after, r, x) by {
        lemma_set(regions, region, list, r);
        if r == region {
            assert(base.contains(x));
        }
    }
    assert forall|x: Seq<char>| #[trigger] nodes.contains(x) implies region_has(
        after,
        region,
        x,
    ) by {}
}

proof fn lemma_after_node(
    d: DiscoveryModel,
    region_id: Seq<char>,
    node: LsxNode,
    parent: Option<Seq<char>>,
    is_root: bool,
)
    ensures
        ({
            let after = discovery::after_node(
                d,
                region_id,
                node.id@,
                node.attributes.deep_view(),
                parent,
                is_root,
            );
            grows(d, after) && node_known(after, region_id, node, parent, is_root)
        }),
{
    let name = first_name(region_id, node.id@);
    let attrs = node.attributes.deep_view();
    let after = discovery::after_node(d, region_id, node.id@, attrs, parent, is_root);
    let base = match textmap::value_of(d.tables, name) {
        Some(t) => t,
        None => RawModel {
            region_id: Some(region_id),
            node_id: Some(node.id@),
            ..discovery::blank_table("lsx"@)
        },
    };
    let seen = RawModel {
        is_root: base.is_root || is_root,
        has_parent: base.has_parent || parent is Some,
        parent_tables: match parent {
            Some(p) => textmap::with_member(base.parent_tables, p),
            None => base.parent_tables,
        },
        columns: discovery::with_attributes(base.columns, attrs),
        ..base
    };
    lemma_attributes_columns(base.columns, attrs);
    if parent is Some {
        lemma_member(base.parent_tables, parent->0);
    }
    lemma_set(d.tables, name, seen, name);
    assert(after.tables == textmap::with_value(d.tables, name, seen));
    assert forall|n: Seq<char>| #[trigger]
        textmap::has_key(d.tables, n) implies textmap::has_key(after.tables, n) && table_grows(
        textmap::value_of(d.tables, n)->0,
        textmap::value_of(after.tables, n)->0,
    ) by {
        lemma_set(d.tables, name, seen, n);
    }
    lemma_with_region(d.regions, region_id, seq![node.id@]);
    assert(seq![node.id@][0] == node.id@);
    assert(seq![node.id@].contains(node.id@));
    assert forall|k: int| 0 <= k < node.attributes@.len() implies attribute_known(
        seen.columns,
        (#[trigger] node.attributes@[k]).deep_view(),
    ) by {
        assert(attrs[k] == node.attributes@[k].deep_view());
    }
}

proof fn lemma_after_tree(
    d: DiscoveryModel,
    region_id: Seq<char>,
    node: LsxNode,
    parent: Option<Seq<char>>,
    is_root: bool,
)
    ensures
        grows(d, discovery::after_tree(d, region_id, node, parent, is_root)),
        tree_known(
            discovery::after_tree(d, region_id, node, parent, is_root),
            region_id,
            node,
            parent,
            is_root,
        ),
    decreases node,
{
    let name = first_name(region_id, node.id@);
    let first = discovery::after_node(
        d,
        region_id,
        node.id@,
        node.attributes.deep_view(),
        parent,
        is_root,
    );
    let after = discovery::after_tree(d, region_id, node, parent, is_root);
    lemma_after_node(d, region_id, node, parent, is_root);
    lemma_after_trees(first, region_id, node.children@, Some(name), false);
    lemma_grows_both(d, first, after);
    lemma_node_stays(first, after, region_id, node, parent, is_root);
}

proof fn lemma_after_trees(
    d: DiscoveryModel,
    region_id: Seq<char>,
    nodes: Seq<LsxNode>,
    parent: Option<Seq<char>>,
    is_root: bool,
)
    ensures
        grows(d, discovery::after_trees(d, region_id, nodes, parent, is_root)),
        forest_known(
            discovery::after_trees(d, region_id, nodes, parent, is_root),
            region_id,
            nodes,
            parent,
            is_root,
        ),
    decreases nodes,
{
    if nodes.len() > 0 {
        let before = discovery::after_trees(d, region_id, nodes.drop_last(), parent, is_root);
        let after = discovery::after_trees(d, region_id, nodes, parent, is_root);
        lemma_after_trees(d, region_id, nodes.drop_last(), parent, is_root);
        lemma_after_tree(before, region_id, nodes.last(), parent, is_root);
        lemma_grows_both(d, before, after);
        lemma_forest_stays(before, after, region_id, nodes.drop_last(), parent, is_root);
    }
}

/// All nodes of a resource are known, but for those of regions that are skipped: each has
/// a table with the columns of its attributes, and the table of the node above it is
/// among the parents of its own.
pub proof fn law_all_nodes_are_known(regions: Seq<LsxRegion>, i: int)
    requires
        0 <= i < regions.len(),
        !files::is_skipped_region(regions[i].id@),
    ensures
        forest_known(
            discovery::after_regions(discovery::nothing_seen(), regions),
            regions[i].id@,
            regions[i].nodes@,
            None,
            true,
        ),
    decreases regions.len(),
{
    let d = regions.drop_last();
    let before = discovery::after_regions(discovery::nothing_seen(), d);
    let after = discovery::after_regions(discovery::nothing_seen(), regions);
    let last = regions.last();
    if !files::is_skipped_region(last.id@) {
        lemma_after_trees(before, last.id@, last.nodes@, None, true);
    }
    if i < d.len() {
        assert(d[i] == regions[i]);
        law_all_nodes_are_known(d, i);
        if !files::is_skipped_region(last.id@) {
            lemma_forest_stays(before, after, regions[i].id@, regions[i].nodes@, None, true);
        }
    } else {
        assert(regions[i] == last);
    }
}

// ---------------------------------------------------------------------------
// Files together
// ---------------------------------------------------------------------------

/// Whether all that a file told of a table is known.
pub open spec fn table_taken(t: RawModel, known: RawModel) -> bool {
    &&& forall|c: Seq<char>| #[trigger]
        textmap::has_key(t.columns, c) ==> textmap::has_key(known.columns, c)
    &&& forall|p: Seq<char>| #[trigger]
        t.parent_tables.contains(p) ==> known.parent_tables.contains(p)
    &&& t.is_root ==> known.is_root
    &&& t.has_parent ==> known.has_parent
    &&& t.region_id is Some ==> known.region_id is Some
    &&& t.node_id is Some ==> known.node_id is Some
}

proof fn lemma_with_columns(
    columns: Seq<(Seq<char>, Seq<char>)>,
    more: Seq<(Seq<char>, Seq<char>)>,
)
    ensures
        forall|c: Seq<char>| #[trigger]
            textmap::has_key(columns, c) ==> textmap::value_of(
                discovery::with_columns(columns, more),
                c,
            ) == textmap::value_of(columns, c),
        forall|c: Seq<char>| #[trigger]
            textmap::has_key(more, c) ==> textmap::has_key(
                discovery::with_columns(columns, more),
                c,
            ),
{
    assert forall|c: Seq<char>| #[trigger] textmap::has_key(columns, c) implies textmap::value_of(
        discovery::with_columns(columns, more),
        c,
    ) == textmap::value_of(columns, c) by {
        discovery::law_merge_keeps_columns(columns, more, c);
    }
    assert forall|c: Seq<char>| #[trigger] textmap::has_key(more, c) implies textmap::has_key(
        discovery::with_columns(columns, more),
        c,
    ) by {
        discovery::law_merge_keeps_columns(columns, more, c);
    }
}

proof fn lemma_with_table(
    tables: Seq<(Seq<char>, RawModel)>,
    name: Seq<char>,
    info: RawModel,
)
    ensures
        ({
            let after = discovery::with_table(tables, name, info);
            &&& textmap::has_key(after, name)
            &&& table_taken(info, textmap::value_of(after, name)->0)
            &&& forall|n: Seq<char>| #[trigger]
                textmap::has_key(tables, n) ==> textmap::has_key(after, n) && table_grows(
                    textmap::value_of(tables, n)->0,
                    textmap::value_of(after, n)->0,
                )
        }),
{
    let base = match textmap::value_of(tables, name) {
        Some(t) => t,
        None => discovery::blank_table(info.source_type),
    };
    let m = discovery::merged_table(base, info);
    let after = discovery::with_table(tables, name, info);
    lemma_set(tables, name, m, name);
    lemma_with_columns(base.columns, info.columns);
    lemma_members(base.parent_tables, info.parent_tables);
    assert forall|n: Seq<char>| #[trigger]
        textmap::has_key(tables, n) implies textmap::has_key(after, n) && table_grows(
        textmap::value_of(tables, n)->0,
        textmap::value_of(after, n)->0,
    ) by {
        lemma_set(tables, name, m, n);
    }
}

spec fn tables_grow(a: Seq<(Seq<char>, RawModel)>, b: Seq<(Seq<char>, RawModel)>) -> bool {
    forall|n: Seq<char>| #[trigger]
        textmap::has_key(a, n) ==> textmap::has_key(b, n) && table_grows(
            textmap::value_of(a, n)->0,
            textmap::value_of(b, n)->0,
        )
}

proof fn lemma_taken_stays(t: RawModel, x: RawModel, y: RawModel)
    requires
        table_taken(t, x),
        table_grows(x, y),
    ensures
        table_taken(t, y),
{
    assert forall|c: Seq<char>| #[trigger] textmap::has_key(t.columns, c) implies textmap::has_key(
        y.columns,
        c,
    ) by {
        assert(textmap::has_key(x.columns, c));
    }
    assert forall|p: Seq<char>| #[trigger]
        t.parent_tables.contains(p) implies y.parent_tables.contains(p) by {
        assert(x.parent_tables.contains(p));
    }
}

proof fn lemma_with_tables(
    tables: Seq<(Seq<char>, RawModel)>,
    more: Seq<(Seq<char>, RawModel)>,
)
    ensures
        ({
            let after = discovery::with_tables(tables, more);
            &&& tables_grow(tables, after)
            &&& forall|k: int|
                0 <= k < more.len() ==> textmap::has_key(after, (#[trigger] more[k]).0)
                    && table_taken(more[k].1, textmap::value_of(after, more[k].0)->0)
        }),
    decreases more.len(),
{
    let after = discovery::with_tables(tables, more);
    if more.len() > 0 {
        let d = more.drop_last();
        let before = discovery::with_tables(tables, d);
        lemma_with_tables(tables, d);
        lemma_with_table(before, more.last().0, more.last().1);
        let none = Seq::<(Seq<char>, Seq<Seq<char>>)>::empty();
        lemma_grows_both(
            DiscoveryModel { tables, regions: none },
            DiscoveryModel { tables: before, regions: none },
            DiscoveryModel { tables: after, regions: none },
        );
        assert forall|k: int| 0 <= k < more.len() implies textmap::has_key(
            after,
            (#[trigger] more[k]).0,
        ) && table_taken(more[k].1, textmap::value_of(after, more[k].0)->0) by {
            if k < d.len() {
                assert(d[k] == more[k]);
                assert(textmap::has_key(before, d[k].0));
                lemma_taken_stays(
                    d[k].1,
                    textmap::value_of(before, d[k].0)->0,
                    textmap::value_of(after, d[k].0)->0,
                );
            } else {
                assert(more[k] == more.last());
            }
        }
    } else {
        assert forall|n: Seq<char>| #[trigger]
            textmap::has_key(tables, n) implies textmap::has_key(after, n) && table_grows(
            textmap::value_of(tables, n)->0,
            textmap::value_of(after, n)->0,
        ) by {}
    }
}

/// What several files told is all known together, whatever other files told.
pub proof fn law_all_files_are_taken(files: Seq<DiscoveryModel>, f: int, k: int)
    requires
        0 <= f < files.len(),
        0 <= k < files[f].tables.len(),
    ensures
        ({
            let all = schema_build::all_seen(files).tables;
            let t = files[f].tables[k];
            textmap::has_key(all, t.0) && table_taken(t.1, textmap::value_of(all, t.0)->0)
        }),
    decreases files.len(),
{
    let d = files.drop_last();
    let before = schema_build::all_seen(d);
    let after = schema_build::all_seen(files);
    lemma_with_tables(before.tables, files.last().tables);
    if f < d.len() {
        assert(d[f] == files[f]);
        law_all_files_are_taken(d, f, k);
        let t = files[f].tables[k];
        lemma_taken_stays(
            t.1,
            textmap::value_of(before.tables, t.0)->0,
            textmap::value_of(after.tables, t.0)->0,
        );
    } else {
        assert(files[f] == files.last());
    }
}

// ---------------------------------------------------------------------------
// Renamed tables
// ---------------------------------------------------------------------------

/// The name that a region gives to the table of its only kind of node.
pub open spec fn region_name(region_id: Seq<char>) -> Seq<char> {
    "lsx__"@ + files::sanitized(region_id)
}

/// Whether a table is that of the only kind of node of a region, under another name than
/// that of the region.
pub open spec fn is_only_table(region: (Seq<char>, Seq<Seq<char>>), name: Seq<char>) -> bool {
    &&& region.1.len() == 1
    &&& first_name(region.0, region.1[0]) == name
    &&& name != region_name(region.0)
}

/// Whether no name of a table that one region gives or takes is one of another region.
pub open spec fn apart(
    a: (Seq<char>, Seq<Seq<char>>),
    b: (Seq<char>, Seq<Seq<char>>),
) -> bool {
    &&& region_name(a.0) != region_name(b.0)
    &&& b.1.len() == 1 ==> first_name(b.0, b.1[0]) != region_name(a.0)
    &&& a.1.len() == 1 && b.1.len() == 1 ==> first_name(a.0, a.1[0]) != first_name(b.0, b.1[0])
}

/// Whether the names of regions stand in each other's way nowhere, nor in that of a table.
pub open spec fn named_apart(
    tables: Seq<(Seq<char>, RawModel)>,
    regions: Seq<(Seq<char>, Seq<Seq<char>>)>,
) -> bool {
    &&& textmap::distinct(tables)
    &&& forall|i: int, j: int|
        0 <= i < regions.len() && 0 <= j < regions.len() && i != j ==> #[trigger] apart(
            regions[i],
            regions[j],
        )
    &&& forall|i: int, k: int|
        0 <= i < regions.len() && 0 <= k < tables.len() ==> region_name((#[trigger] regions[i]).0)
            != (#[trigger] tables[k]).0
}

/// Whether a region gives a name.
pub open spec fn is_region_name(
    regions: Seq<(Seq<char>, Seq<Seq<char>>)>,
    name: Seq<char>,
) -> bool {
    exists|i: int| 0 <= i < regions.len() && region_name((#[trigger] regions[i]).0) == name
}

/// Whether a table has a name of its own, whatever the regions.
pub open spec fn keeps_name(
    regions: Seq<(Seq<char>, Seq<Seq<char>>)>,
    name: Seq<char>,
) -> bool {
    forall|i: int| 0 <= i < regions.len() ==> !is_only_table(#[trigger] regions[i], name)
}

proof fn lemma_dropped<T>(m: Seq<(Seq<char>, T)>, k: Seq<char>, other: Seq<char>)
    requires
        textmap::distinct(m),
    ensures
        textmap::distinct(textmap::without_key(m, k)),
        !textmap::has_key(textmap::without_key(m, k), k),
        other != k ==> textmap::value_of(textmap::without_key(m, k), other) == textmap::value_of(
            m,
            other,
        ),
{
    let n = textmap::without_key(m, k);
    textmap::lemma_key_pos(m, k);
    textmap::lemma_key_pos(n, k);
    textmap::lemma_key_pos(m, other);
    textmap::lemma_key_pos(n, other);
    if textmap::key_pos(m, k) is Some {
        let i = textmap::key_pos(m, k)->0;
        assert forall|a: int| 0 <= a < n.len() implies #[trigger] n[a] == m[if a < i {
            a
        } else {
            a + 1
        }] by {}
        assert forall|a: int, b: int| 0 <= a < b < n.len() implies #[trigger] n[a].0
            != #[trigger] n[b].0 by {
            let x = if a < i {
                a
            } else {
                a + 1
            };
            let y = if b < i {
                b
            } else {
                b + 1
            };
            assert(m[x].0 != m[y].0);
        }
        if textmap::has_key(n, k) {
            let a = textmap::key_pos(n, k)->0;
            let x = if a < i {
                a
            } else {
                a + 1
            };
            assert(n[a] == m[x]);
            assert(m[x].0 == k && m[i].0 == k);
            if x < i {
                assert(m[x].0 != m[i].0);
            } else {
                assert(m[i].0 != m[x].0);
            }
        }
        if other != k {
            match textmap::key_pos(m, other) {
                Some(o) => {
                    let a = if o < i {
                        o
                    } else {
                        o - 1
                    };
                    assert(n[a] == m[o]);
                    let b = textmap::key_pos(n, other)->0;
                    let y = if b < i {
                        b
                    } else {
                        b + 1
                    };
                    assert(n[b] == m[y]);
                    if y < o {
                        assert(m[y].0 != m[o].0);
                    } else if o < y {
                        assert(m[o].0 != m[y].0);
                    }
                },
                None => {
                    if textmap::has_key(n, other) {
                        let b = textmap::key_pos(n, other)->0;
                        let y = if b < i {
                            b
                        } else {
                            b + 1
                        };
                        assert(n[b] == m[y]);
                    }
                },
            }
        }
    }
}

/// What a table is after a region gave it its name.
pub open spec fn named_by(region: (Seq<char>, Seq<Seq<char>>), info: RawModel) -> RawModel {
    RawModel { region_id: Some(region.0), node_id: Some(region.1[0]), ..info }
}

spec fn well_renamed(
    tables: Seq<(Seq<char>, RawModel)>,
    regions: Seq<(Seq<char>, Seq<Seq<char>>)>,
    st: schema_build::Renaming,
    k: int,
) -> bool {
    let n = tables[k].0;
    &&& textmap::distinct(st.tables)
    &&& forall|x: Seq<char>| #[trigger]
        textmap::has_key(st.tables, x) ==> textmap::has_key(tables, x) || is_region_name(regions, x)
    &&& forall|i: int|
        0 <= i < regions.len() && is_only_table(#[trigger] regions[i], n) ==> {
            &&& textmap::value_of(st.tables, region_name(regions[i].0)) == Some(
                named_by(regions[i], tables[k].1),
            )
            &&& !textmap::has_key(st.tables, n)
            &&& textmap::value_of(st.renames, n) == Some(region_name(regions[i].0))
        }
    &&& keeps_name(regions, n) ==> textmap::value_of(st.tables, n) == Some(tables[k].1)
        && !textmap::has_key(st.renames, n)
}

proof fn lemma_fewer_apart(
    tables: Seq<(Seq<char>, RawModel)>,
    regions: Seq<(Seq<char>, Seq<Seq<char>>)>,
)
    requires
        named_apart(tables, regions),
        regions.len() > 0,
    ensures
        named_apart(tables, regions.drop_last()),
{
    let d = regions.drop_last();
    assert forall|i: int, j: int|
        0 <= i < d.len() && 0 <= j < d.len() && i != j implies #[trigger] apart(d[i], d[j]) by {
        assert(apart(regions[i], regions[j]));
    }
    assert forall|i: int, k: int| 0 <= i < d.len() && 0 <= k < tables.len() implies region_name(
        (#[trigger] d[i]).0,
    ) != (#[trigger] tables[k]).0 by {
        assert(d[i] == regions[i]);
    }
}

spec fn takes_name(
    st: schema_build::Renaming,
    p: (Seq<char>, Seq<Seq<char>>),
) -> bool {
    &&& p.1.len() == 1
    &&& first_name(p.0, p.1[0]) != region_name(p.0)
    &&& textmap::has_key(st.tables, first_name(p.0, p.1[0]))
}

proof fn lemma_one_renamed(
    st: schema_build::Renaming,
    p: (Seq<char>, Seq<Seq<char>>),
    x: Seq<char>,
)
    requires
        textmap::distinct(st.tables),
    ensures
        ({
            let after = schema_build::after_consolidation(st, p);
            let old_name = first_name(p.0, p.1[0]);
            let new_name = region_name(p.0);
            &&& textmap::distinct(after.tables)
            &&& !takes_name(st, p) ==> after == st
            &&& takes_name(st, p) ==> {
                &&& textmap::value_of(after.tables, new_name) == Some(
                    named_by(p, textmap::value_of(st.tables, old_name)->0),
                )
                &&& textmap::value_of(after.renames, old_name) == Some(new_name)
                &&& !textmap::has_key(after.tables, old_name)
                &&& x != old_name && x != new_name ==> textmap::value_of(after.tables, x)
                    == textmap::value_of(st.tables, x)
                &&& x != old_name ==> textmap::value_of(after.renames, x) == textmap::value_of(
                    st.renames,
                    x,
                )
            }
        }),
{
    let old_name = first_name(p.0, p.1[0]);
    let new_name = region_name(p.0);
    let after = schema_build::after_consolidation(st, p);
    assert(old_name == discovery::node_table(p.0, p.1[0]));
    assert(new_name == schema_build::region_table(p.0));
    if takes_name(st, p) {
        let v = named_by(p, textmap::value_of(st.tables, old_name)->0);
        let dropped = textmap::without_key(st.tables, old_name);
        lemma_dropped(st.tables, old_name, x);
        lemma_set(dropped, new_name, v, x);
        lemma_set(dropped, new_name, v, old_name);
        textmap::law_with_value(dropped, new_name, v, x);
        lemma_set(st.renames, old_name, new_name, x);
        assert(after.tables == textmap::with_value(dropped, new_name, v));
    }
}

proof fn lemma_known_names(
    tables: Seq<(Seq<char>, RawModel)>,
    regions: Seq<(Seq<char>, Seq<Seq<char>>)>,
    st: schema_build::Renaming,
    x: Seq<char>,
)
    requires
        regions.len() > 0,
        textmap::distinct(st.tables),
        textmap::has_key(st.tables, x) ==> textmap::has_key(tables, x) || is_region_name(
            regions.drop_last(),
            x,
        ),
        textmap::has_key(schema_build::after_consolidation(st, regions.last()).tables, x),
    ensures
        textmap::has_key(tables, x) || is_region_name(regions, x),
{
    let d = regions.drop_last();
    let p = regions.last();
    lemma_one_renamed(st, p, x);
    assert(regions[d.len() as int] == p);
    if x != region_name(p.0) && is_region_name(d, x) {
        let i = choose|i: int| 0 <= i < d.len() && region_name((#[trigger] d[i]).0) == x;
        assert(regions[i] == d[i]);
    }
}

proof fn lemma_renamed_step(
    tables: Seq<(Seq<char>, RawModel)>,
    regions: Seq<(Seq<char>, Seq<Seq<char>>)>,
    st: schema_build::Renaming,
    k: int,
)
    requires
        named_apart(tables, regions),
        regions.len() > 0,
        0 <= k < tables.len(),
        well_renamed(tables, regions.drop_last(), st, k),
    ensures
        well_renamed(
            tables,
            regions,
            schema_build::after_consolidation(st, regions.last()),
            k,
        ),
{
    let d = regions.drop_last();
    let m = d.len() as int;
    let p = regions.last();
    assert(regions[m] == p);
    let n = tables[k].0;
    let after = schema_build::after_consolidation(st, p);
    lemma_one_renamed(st, p, n);
    assert(n != region_name(regions[m].0));
    assert forall|x: Seq<char>| #[trigger]
        textmap::has_key(after.tables, x) implies textmap::has_key(tables, x) || is_region_name(
        regions,
        x,
    ) by {
        lemma_known_names(tables, regions, st, x);
    }
    if is_only_table(p, n) {
        assert forall|i: int| 0 <= i < m implies !is_only_table(#[trigger] d[i], n) by {
            assert(apart(regions[i], regions[m]));
        }
        assert(keeps_name(d, n));
    }
    if keeps_name(regions, n) {
        assert(!is_only_table(regions[m], n));
        assert forall|i: int| 0 <= i < m implies !is_only_table(#[trigger] d[i], n) by {
            assert(d[i] == regions[i]);
        }
        assert(keeps_name(d, n));
    }
    assert forall|i: int|
        0 <= i < regions.len() && is_only_table(#[trigger] regions[i], n) implies {
        &&& textmap::value_of(after.tables, region_name(regions[i].0)) == Some(
            named_by(regions[i], tables[k].1),
        )
        &&& !textmap::has_key(after.tables, n)
        &&& textmap::value_of(after.renames, n) == Some(region_name(regions[i].0))
    } by {
        if i < m {
            assert(d[i] == regions[i]);
            assert(apart(regions[i], regions[m]));
            lemma_one_renamed(st, p, region_name(regions[i].0));
        }
    }
}

proof fn lemma_renamed(
    tables: Seq<(Seq<char>, RawModel)>,
    regions: Seq<(Seq<char>, Seq<Seq<char>>)>,
    k: int,
)
    requires
        named_apart(tables, regions),
        0 <= k < tables.len(),
    ensures
        well_renamed(tables, regions, schema_build::consolidated_tables(tables, regions), k),
    decreases regions.len(),
{
    if regions.len() == 0 {
        let n = tables[k].0;
        assert forall|j: int| 0 <= j < k implies (#[trigger] tables[j]).0 != n by {
            assert(tables[j].0 != tables[k].0);
        }
        textmap::lemma_key_pos_is(tables, n, k);
    } else {
        lemma_fewer_apart(tables, regions);
        lemma_renamed(tables, regions.drop_last(), k);
        lemma_renamed_step(
            tables,
            regions,
            schema_build::consolidated_tables(tables, regions.drop_last()),
            k,
        );
    }
}

// ---------------------------------------------------------------------------
// The tables of the schema
// ---------------------------------------------------------------------------

/// What a table is called now.
pub open spec fn now_called(
    renames: Seq<(Seq<char>, Seq<char>)>,
    name: Seq<char>,
) -> Seq<char> {
    match textmap::value_of(renames, name) {
        Some(n) => n,
        None => name,
    }
}

/// Whether a column has its place in a table: as its key, or as a column that SQLite does
/// not tell from it.
pub open spec fn has_place(t: TableModel, c: Seq<char>) -> bool {
    c == t.pk_strategy.key_column() || exists|i: int|
        0 <= i < t.columns.len() && text::ascii_lowered((#[trigger] t.columns[i]).name)
            == text::ascii_lowered(c)
}

/// Whether a parent table is one that was seen, under its name of now.
pub open spec fn is_parent_of(
    renames: Seq<(Seq<char>, Seq<char>)>,
    parents: Seq<Seq<char>>,
    name: Seq<char>,
) -> bool {
    exists|i: int| 0 <= i < parents.len() && now_called(renames, #[trigger] parents[i]) == name
}

/// Whether a table of the schema holds all that was seen of one.
pub open spec fn holds_all(
    renames: Seq<(Seq<char>, Seq<char>)>,
    t: TableModel,
    info: RawModel,
) -> bool {
    &&& t.source_type == info.source_type
    &&& forall|c: int|
        0 <= c < info.columns.len() ==> has_place(t, (#[trigger] info.columns[c]).0)
    &&& forall|i: int|
        0 <= i < info.parent_tables.len() ==> t.parent_tables.contains(
            now_called(renames, #[trigger] info.parent_tables[i]),
        )
    &&& forall|p: Seq<char>| #[trigger]
        t.parent_tables.contains(p) ==> is_parent_of(renames, info.parent_tables, p)
}

proof fn lemma_parents(parents: Seq<Seq<char>>, renames: Seq<(Seq<char>, Seq<char>)>)
    ensures
        forall|i: int|
            0 <= i < parents.len() ==> schema_build::renamed_parents(parents, renames).contains(
                now_called(renames, #[trigger] parents[i]),
            ),
        forall|p: Seq<char>| #[trigger]
            schema_build::renamed_parents(parents, renames).contains(p) ==> is_parent_of(
                renames,
                parents,
                p,
            ),
    decreases parents.len(),
{
    let r = schema_build::renamed_parents(parents, renames);
    if parents.len() > 0 {
        let d = parents.drop_last();
        let before = schema_build::renamed_parents(d, renames);
        lemma_parents(d, renames);
        lemma_member(before, now_called(renames, parents.last()));
        assert forall|i: int| 0 <= i < parents.len() implies r.contains(
            now_called(renames, #[trigger] parents[i]),
        ) by {
            if i < d.len() {
                assert(d[i] == parents[i]);
                assert(before.contains(now_called(renames, d[i])));
            }
        }
        assert forall|p: Seq<char>| #[trigger] r.contains(p) implies is_parent_of(
            renames,
            parents,
            p,
        ) by {
            if before.contains(p) {
                let i = choose|i: int|
                    0 <= i < d.len() && now_called(renames, #[trigger] d[i]) == p;
                assert(parents[i] == d[i]);
            } else {
                let at = choose|at: int| 0 <= at < r.len() && r[at] == p;
                assert(p == now_called(renames, parents.last()));
                assert(parents[parents.len() - 1] == parents.last());
            }
        }
    }
}

proof fn lemma_data_columns(columns: Seq<(Seq<char>, Seq<char>)>, pk: PkStrategy)
    ensures
        forall|c: int|
            0 <= c < columns.len() && (#[trigger] columns[c]).0 != pk.key_column()
                ==> schema_build::data_columns(columns, pk).contains(
                schema_build::column_of(columns[c]),
            ),
    decreases columns.len(),
{
    let r = schema_build::data_columns(columns, pk);
    if columns.len() > 0 {
        let d = columns.drop_last();
        let before = schema_build::data_columns(d, pk);
        lemma_data_columns(d, pk);
        assert forall|c: int|
            0 <= c < columns.len() && (#[trigger] columns[c]).0
                != pk.key_column() implies r.contains(schema_build::column_of(columns[c])) by {
            if c < d.len() {
                assert(d[c] == columns[c]);
                let x = schema_build::column_of(d[c]);
                assert(before.contains(x));
                let at = choose|at: int| 0 <= at < before.len() && before[at] == x;
                assert(r[at] == x);
            } else {
                assert(r[r.len() - 1] == schema_build::column_of(columns[c]));
            }
        }
    }
}

proof fn lemma_doubles(columns: Seq<ColumnModel>, c: ColumnModel)
    requires
        columns.contains(c),
    ensures
        schema_build::named_alike(schema_build::without_doubles(columns), c.name),
    decreases columns.len(),
{
    let d = columns.drop_last();
    let before = schema_build::without_doubles(d);
    let r = schema_build::without_doubles(columns);
    let at = choose|at: int| 0 <= at < columns.len() && columns[at] == c;
    if at < d.len() {
        assert(d[at] == c);
        lemma_doubles(d, c);
        let i = choose|i: int|
            0 <= i < before.len() && text::ascii_lowered((#[trigger] before[i]).name)
                == text::ascii_lowered(c.name);
        assert(r[i] == before[i]);
    } else if !schema_build::named_alike(before, c.name) {
        assert(r[r.len() - 1] == c);
    }
}

proof fn lemma_places(columns: Seq<(Seq<char>, Seq<char>)>, pk: PkStrategy, c: int)
    requires
        0 <= c < columns.len(),
        columns[c].0 != pk.key_column(),
    ensures
        schema_build::named_alike(schema_build::table_columns(columns, pk), columns[c].0),
{
    let data = schema_build::data_columns(columns, pk);
    let before = order::rank::<ColumnDef>();
    let x = schema_build::column_of(columns[c]);
    lemma_data_columns(columns, pk);
    order::lemma_text_orders(before, |m: ColumnModel| m.name);
    order::lemma_sorted_holds(data, before);
    lemma_doubles(order::stable_sort(data, before), x);
}

proof fn lemma_held(d: DiscoveryModel, name: Seq<char>, info: RawModel)
    requires
        textmap::value_of(
            schema_build::consolidated_tables(d.tables, d.regions).tables,
            name,
        ) == Some(info),
    ensures
        ({
            let s = schema_build::schema_of(d);
            textmap::value_of(s.tables, name) matches Some(t) && t.table_name == name
                && t.region_id == info.region_id && t.node_id == info.node_id && holds_all(
                s.renames,
                t,
                info,
            )
        }),
{
    let c = schema_build::consolidated_tables(d.tables, d.regions);
    let names = schema_build::final_names(d);
    let s = schema_build::schema_of(d);
    schema_laws::lemma_same_keys(c.tables, names.tables, name);
    schema_laws::lemma_same_keys(names.tables, s.tables, name);
    textmap::lemma_key_pos(c.tables, name);
    let at = textmap::key_pos(c.tables, name)->0;
    let t = s.tables[at].1;
    let raw = names.tables[at];
    assert(raw.0 == name && raw.1.columns == info.columns);
    assert(s.tables[at] == (name, schema_build::table_of(names, name, raw.1)));
    assert(t.columns == schema_build::table_columns(info.columns, t.pk_strategy));
    assert forall|i: int| 0 <= i < info.columns.len() implies has_place(
        t,
        (#[trigger] info.columns[i]).0,
    ) by {
        if info.columns[i].0 != t.pk_strategy.key_column() {
            lemma_places(info.columns, t.pk_strategy, i);
        }
    }
    lemma_parents(info.parent_tables, c.renames);
}

/// The schema holds all that was seen of a table. It stands under the name of its region
/// where it is that of the only kind of node there, and under its own name elsewhere.
pub proof fn law_schema_holds_tables(d: DiscoveryModel, k: int)
    requires
        named_apart(d.tables, d.regions),
        0 <= k < d.tables.len(),
    ensures
        ({
            let s = schema_build::schema_of(d);
            let n = d.tables[k].0;
            let info = d.tables[k].1;
            &&& forall|i: int|
                0 <= i < d.regions.len() && is_only_table(#[trigger] d.regions[i], n) ==> {
                    let now = region_name(d.regions[i].0);
                    &&& textmap::value_of(s.renames, n) == Some(now)
                    &&& textmap::value_of(s.tables, now) matches Some(t) && t.table_name == now
                        && t.region_id == Some(d.regions[i].0) && t.node_id == Some(
                        d.regions[i].1[0],
                    ) && holds_all(s.renames, t, info)
                }
            &&& keeps_name(d.regions, n) ==> {
                &&& textmap::value_of(s.renames, n) is None
                &&& textmap::value_of(s.tables, n) matches Some(t) && t.table_name == n
                    && t.region_id == info.region_id && t.node_id == info.node_id && holds_all(
                    s.renames,
                    t,
                    info,
                )
            }
        }),
{
    let c = schema_build::consolidated_tables(d.tables, d.regions);
    let n = d.tables[k].0;
    let info = d.tables[k].1;
    lemma_renamed(d.tables, d.regions, k);
    assert forall|i: int|
        0 <= i < d.regions.len() && is_only_table(#[trigger] d.regions[i], n) implies {
        let s = schema_build::schema_of(d);
        let now = region_name(d.regions[i].0);
        &&& textmap::value_of(s.renames, n) == Some(now)
        &&& textmap::value_of(s.tables, now) matches Some(t) && t.table_name == now && t.region_id
            == Some(d.regions[i].0) && t.node_id == Some(d.regions[i].1[0]) && holds_all(
            s.renames,
            t,
            info,
        )
    } by {
        let now = region_name(d.regions[i].0);
        let taken = named_by(d.regions[i], info);
        lemma_held(d, now, taken);
        assert(taken.columns == info.columns && taken.parent_tables == info.parent_tables);
        let s = schema_build::schema_of(d);
        assert(s.renames == c.renames);
        assert(holds_all(s.renames, textmap::value_of(s.tables, now)->0, taken));
    }
    if keeps_name(d.regions, n) {
        lemma_held(d, n, info);
    }
}

// ---------------------------------------------------------------------------
// Keys and junctions
// ---------------------------------------------------------------------------

/// Whether one of several tables was seen as a root.
pub open spec fn one_is_root(
    tables: Seq<(Seq<char>, RawModel)>,
    names: Seq<Seq<char>>,
) -> bool {
    exists|p: Seq<char>| #[trigger]
        names.contains(p) && (textmap::value_of(tables, p) matches Some(t) && t.is_root)
}

/// The key of a table of the schema: that of the localization and those of stats are
/// fixed; elsewhere it is `MapKey`, or `UUID` unless the table lies deeper than right below
/// a root, or `ID`, whichever the table has first; a table with none of them has row numbers.
pub proof fn law_tables_are_keyed(d: DiscoveryModel, i: int)
    requires
        0 <= i < schema_build::schema_of(d).tables.len(),
    ensures
        ({
            let raw = schema_build::final_names(d).tables[i];
            let t = schema_build::schema_of(d).tables[i];
            let key = t.1.pk_strategy.key_column();
            let free = raw.0 != "loca__english"@ && !"stats__"@.is_prefix_of(raw.0);
            let deep = raw.1.has_parent && !one_is_root(
                schema_build::final_names(d).tables,
                t.1.parent_tables,
            );
            let has_map_key = textmap::has_key(raw.1.columns, "MapKey"@);
            let has_uuid = textmap::has_key(raw.1.columns, "UUID"@);
            let has_id = textmap::has_key(raw.1.columns, "ID"@);
            &&& t.0 == raw.0
            &&& raw.0 == "loca__english"@ ==> key == "contentuid"@
            &&& raw.0 != "loca__english"@ && "stats__"@.is_prefix_of(raw.0) ==> key
                == "_entry_name"@
            &&& free && has_map_key ==> key == "MapKey"@
            &&& free && !has_map_key && has_uuid && !deep ==> key == "UUID"@
            &&& free && !has_map_key && has_id && (!has_uuid || deep) ==> key == "ID"@
            &&& free && !has_map_key && !has_id && (!has_uuid || deep) ==> key == "_row_id"@
            &&& t.1.pk_strategy.key_type() == if key == "_row_id"@ {
                "INTEGER"@
            } else {
                "TEXT"@
            }
        }),
{
    let names = schema_build::final_names(d);
    let raw = names.tables[i];
    let parents = raw.1.parent_tables;
    if one_is_root(names.tables, parents) {
        let p = choose|p: Seq<char>| #[trigger]
            parents.contains(p) && (textmap::value_of(names.tables, p) matches Some(t)
                && t.is_root);
        let k = choose|k: int| 0 <= k < parents.len() && parents[k] == p;
        assert(textmap::value_of(names.tables, parents[k]) is Some);
        assert(schema_build::below_root(names.tables, parents));
    }
    if schema_build::below_root(names.tables, parents) {
        let k = choose|k: int|
            0 <= k < parents.len() && match textmap::value_of(names.tables, #[trigger] parents[k]) {
                Some(t) => t.is_root,
                None => false,
            };
        assert(parents.contains(parents[k]));
        assert(one_is_root(names.tables, parents));
    }
    reveal_strlit("_row_id");
    reveal_strlit("UUID");
    reveal_strlit("MapKey");
    reveal_strlit("ID");
    reveal_strlit("_entry_name");
    reveal_strlit("contentuid");
    assert("_row_id"@.len() == 7);
    assert("UUID"@.len() == 4);
    assert("MapKey"@.len() == 6);
    assert("ID"@.len() == 2);
    assert("_entry_name"@.len() == 11);
    assert("contentuid"@.len() == 10);
}

/// Whether a junction links a child table to a parent table by the keys of both.
pub open spec fn is_link(
    j: JunctionModel,
    parent_name: Seq<char>,
    parent: TableModel,
    child_name: Seq<char>,
    child: TableModel,
) -> bool {
    &&& j.parent_table == parent_name
    &&& j.child_table == child_name
    &&& j.parent_pk_column == parent.pk_strategy.key_column()
    &&& j.parent_pk_type == parent.pk_strategy.key_type()
    &&& j.child_pk_column == child.pk_strategy.key_column()
    &&& j.child_pk_type == child.pk_strategy.key_type()
    &&& child.node_id matches Some(n) ==> j.table_name == parent_name + "__to__"@
        + files::sanitized(n)
    &&& child.node_id is None ==> j.table_name == parent_name + "__to__"@ + files::sanitized(
        child_name,
    )
}

proof fn lemma_links_of(
    tables: Seq<(Seq<char>, TableModel)>,
    child_name: Seq<char>,
    child: TableModel,
    parents: Seq<Seq<char>>,
    k: int,
)
    requires
        0 <= k < parents.len(),
        textmap::has_key(tables, parents[k]),
    ensures
        schema_build::junctions_of(tables, child_name, child, parents).contains(
            schema_build::junction_of(
                parents[k],
                textmap::value_of(tables, parents[k])->0,
                child_name,
                child,
            ),
        ),
    decreases parents.len(),
{
    let d = parents.drop_last();
    let before = schema_build::junctions_of(tables, child_name, child, d);
    let r = schema_build::junctions_of(tables, child_name, child, parents);
    let x = schema_build::junction_of(
        parents[k],
        textmap::value_of(tables, parents[k])->0,
        child_name,
        child,
    );
    if k < d.len() {
        assert(d[k] == parents[k]);
        lemma_links_of(tables, child_name, child, d, k);
        let at = choose|at: int| 0 <= at < before.len() && before[at] == x;
        assert(r[at] == x);
    } else {
        assert(r[r.len() - 1] == x);
    }
}

proof fn lemma_all_links(
    tables: Seq<(Seq<char>, TableModel)>,
    children: Seq<(Seq<char>, TableModel)>,
    i: int,
    j: JunctionModel,
)
    requires
        0 <= i < children.len(),
        schema_build::junctions_of(
            tables,
            children[i].0,
            children[i].1,
            children[i].1.parent_tables,
        ).contains(j),
    ensures
        schema_build::all_junctions(tables, children).contains(j),
    decreases children.len(),
{
    let d = children.drop_last();
    let before = schema_build::all_junctions(tables, d);
    let last = schema_build::junctions_of(
        tables,
        children.last().0,
        children.last().1,
        children.last().1.parent_tables,
    );
    let r = schema_build::all_junctions(tables, children);
    if i < d.len() {
        assert(d[i] == children[i]);
        lemma_all_links(tables, d, i, j);
        let at = choose|at: int| 0 <= at < before.len() && before[at] == j;
        assert(r[at] == j);
    } else {
        let at = choose|at: int| 0 <= at < last.len() && last[at] == j;
        assert(r[before.len() + at] == j);
    }
}

/// Each table of the schema is linked to each of its parent tables that is a table.
pub proof fn law_parents_are_linked(d: DiscoveryModel, i: int, k: int)
    requires
        0 <= i < schema_build::schema_of(d).tables.len(),
        0 <= k < schema_build::schema_of(d).tables[i].1.parent_tables.len(),
    ensures
        ({
            let s = schema_build::schema_of(d);
            let child = s.tables[i];
            let p = child.1.parent_tables[k];
            textmap::value_of(s.tables, p) matches Some(parent) ==> exists|j: int|
                0 <= j < s.junction_tables.len() && is_link(
                    #[trigger] s.junction_tables[j],
                    p,
                    parent,
                    child.0,
                    child.1,
                )
        }),
{
    let s = schema_build::schema_of(d);
    let child = s.tables[i];
    let p = child.1.parent_tables[k];
    if textmap::has_key(s.tables, p) {
        let parent = textmap::value_of(s.tables, p)->0;
        let x = schema_build::junction_of(p, parent, child.0, child.1);
        lemma_links_of(s.tables, child.0, child.1, child.1.parent_tables, k);
        lemma_all_links(s.tables, s.tables, i, x);
        let before = order::rank::<JunctionDef>();
        order::lemma_text_orders(before, |m: JunctionModel| m.table_name);
        order::lemma_sorted_holds(schema_build::all_junctions(s.tables, s.tables), before);
        let j = choose|j: int| 0 <= j < s.junction_tables.len() && s.junction_tables[j] == x;
        assert(is_link(s.junction_tables[j], p, parent, child.0, child.1));
    }
}

proof fn lemma_data_typed(columns: Seq<(Seq<char>, Seq<char>)>, pk: PkStrategy)
    ensures
        forall|i: int|
            0 <= i < schema_build::data_columns(columns, pk).len() ==> (
            #[trigger] schema_build::data_columns(columns, pk)[i]).sqlite_type == types::affinity(
                schema_build::data_columns(columns, pk)[i].bg3_type,
            ),
    decreases columns.len(),
{
    if columns.len() > 0 {
        let d = columns.drop_last();
        let before = schema_build::data_columns(d, pk);
        let r = schema_build::data_columns(columns, pk);
        lemma_data_typed(d, pk);
        assert forall|i: int| 0 <= i < r.len() implies (#[trigger] r[i]).sqlite_type
            == types::affinity(r[i].bg3_type) by {
            if i < before.len() {
                assert(r[i] == before[i]);
            }
        }
    }
}

/// Each column of a table of the schema was seen with its type, and is stored as that type
/// asks; each table has its rows' files.
pub proof fn law_columns_are_typed(d: DiscoveryModel, i: int, c: int)
    requires
        0 <= i < schema_build::schema_of(d).tables.len(),
        0 <= c < schema_build::schema_of(d).tables[i].1.columns.len(),
    ensures
        ({
            let t = schema_build::schema_of(d).tables[i].1;
            &&& reference_laws::is_raw(
                schema_build::final_names(d).tables[i].1.columns,
                t.columns[c],
            )
            &&& t.columns[c].sqlite_type == types::affinity(t.columns[c].bg3_type)
            &&& t.has_file_id
        }),
{
    reference_laws::lemma_table_column(d, i, c);
    let p = schema_build::final_names(d).tables[i];
    let t = schema_build::schema_of(d).tables[i].1;
    let data = schema_build::data_columns(p.1.columns, t.pk_strategy);
    let before = order::rank::<ColumnDef>();
    let sorted = order::stable_sort(data, before);
    lemma_data_typed(p.1.columns, t.pk_strategy);
    order::lemma_sorted_from(data, before);
    schema_laws::lemma_kept_columns(sorted);
    assert(t.columns[c] == schema_build::without_doubles(sorted)[c]);
    let k = choose|k: int| 0 <= k < sorted.len() && sorted[k] == t.columns[c];
    assert(data.contains(sorted[k]));
    let m = choose|m: int| 0 <= m < data.len() && data[m] == sorted[k];
    assert(data[m].sqlite_type == types::affinity(data[m].bg3_type));
}

} // verus!
