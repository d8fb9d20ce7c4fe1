//! What single files tell about tables and columns, and how it is put
//! together.

use vstd::prelude::*;
use vstd::string::*;
use crate::files;
use crate::files::{sanitize_id, skips_region};
use crate::models::{LsxNode, LsxNodeAttribute, LsxRegion, LsxResource, NodeAttributeModel};
use crate::text::{copy_opt, owned, text_eq};
use crate::textmap;
use crate::textmap::{add_member, place_of, TextMap};

verus! {

/// What was seen of a table.
#[derive(Debug)]
pub struct RawTableInfo {
    pub source_type: String,
    pub region_id: Option<String>,
    pub node_id: Option<String>,
    /// The value type of each column
    pub columns: TextMap<String>,
    pub parent_tables: Vec<String>,
    /// Whether a node of this table was seen below another node
    pub has_parent: bool,
    /// Whether a node of this table was seen at the top of its region
    pub is_root: bool,
}

/// What was seen of a table.
pub struct RawModel {
    pub source_type: Seq<char>,
    pub region_id: Option<Seq<char>>,
    pub node_id: Option<Seq<char>>,
    pub columns: Seq<(Seq<char>, Seq<char>)>,
    pub parent_tables: Seq<Seq<char>>,
    pub has_parent: bool,
    pub is_root: bool,
}

impl DeepView for RawTableInfo {
    type V = RawModel;

    open spec fn deep_view(&self) -> RawModel {
        RawModel {
            source_type: self.source_type@,
            region_id: self.region_id.deep_view(),
            node_id: self.node_id.deep_view(),
            columns: self.columns.deep_view(),
            parent_tables: self.parent_tables.deep_view(),
            has_parent: self.has_parent,
            is_root: self.is_root,
        }
    }
}

/// A table of which only the source is known.
pub open spec fn blank_table(source_type: Seq<char>) -> RawModel {
    RawModel {
        source_type,
        region_id: None,
        node_id: None,
        columns: Seq::empty(),
        parent_tables: Seq::empty(),
        has_parent: false,
        is_root: false,
    }
}

impl RawTableInfo {
    /// A table of which only the source is known.
    pub fn new(source_type: &str) -> (r: Self)
        ensures
            r.deep_view() == blank_table(source_type@),
    {
        let r = RawTableInfo {
            source_type: owned(source_type),
            region_id: None,
            node_id: None,
            columns: TextMap::new(),
            parent_tables: Vec::new(),
            has_parent: false,
            is_root: false,
        };
        assert(r.parent_tables.deep_view() =~= Seq::<Seq<char>>::empty());
        r
    }
}

/// What a file told.
#[derive(Debug)]
pub struct FileDiscovery {
    pub tables: TextMap<RawTableInfo>,
    /// The kinds of nodes of each region
    pub region_node_ids: TextMap<Vec<String>>,
}

/// What a file told.
pub struct DiscoveryModel {
    pub tables: Seq<(Seq<char>, RawModel)>,
    pub regions: Seq<(Seq<char>, Seq<Seq<char>>)>,
}

impl DeepView for FileDiscovery {
    type V = DiscoveryModel;

    open spec fn deep_view(&self) -> DiscoveryModel {
        DiscoveryModel {
            tables: self.tables.deep_view(),
            regions: self.region_node_ids.deep_view(),
        }
    }
}

/// A file that told nothing.
pub open spec fn nothing_seen() -> DiscoveryModel {
    DiscoveryModel { tables: Seq::empty(), regions: Seq::empty() }
}

impl FileDiscovery {
    /// A file that told nothing.
    pub fn new() -> (r: Self)
        ensures
            r.deep_view() == nothing_seen(),
    {
        FileDiscovery { tables: TextMap::new(), region_node_ids: TextMap::new() }
    }
}

// ---------------------------------------------------------------------------
// Merging
// ---------------------------------------------------------------------------

/// Columns that are not there yet, added in order.
pub open spec fn with_columns(
    columns: Seq<(Seq<char>, Seq<char>)>,
    more: Seq<(Seq<char>, Seq<char>)>,
) -> Seq<(Seq<char>, Seq<char>)>
    decreases more.len(),
{
    if more.len() == 0 {
        columns
    } else {
        textmap::with_default(
            with_columns(columns, more.drop_last()),
            more.last().0,
            more.last().1,
        )
    }
}

/// Texts that are not there yet, added in order.
pub open spec fn with_members(list: Seq<Seq<char>>, more: Seq<Seq<char>>) -> Seq<Seq<char>>
    decreases more.len(),
{
    if more.len() == 0 {
        list
    } else {
        textmap::with_member(with_members(list, more.drop_last()), more.last())
    }
}

/// What two files told of a table. The first word on a column's type, on the
/// region and on the node stands.
pub open spec fn merged_table(a: RawModel, b: RawModel) -> RawModel {
    RawModel {
        source_type: a.source_type,
        region_id: if a.region_id is None {
            b.region_id
        } else {
            a.region_id
        },
        node_id: if a.node_id is None {
            b.node_id
        } else {
            a.node_id
        },
        columns: with_columns(a.columns, b.columns),
        parent_tables: with_members(a.parent_tables, b.parent_tables),
        has_parent: a.has_parent || b.has_parent,
        is_root: a.is_root || b.is_root,
    }
}

/// The tables with one more table merged in.
pub open spec fn with_table(
    tables: Seq<(Seq<char>, RawModel)>,
    name: Seq<char>,
    info: RawModel,
) -> Seq<(Seq<char>, RawModel)> {
    let base = match textmap::value_of(tables, name) {
        Some(t) => t,
        None => blank_table(info.source_type),
    };
    textmap::with_value(tables, name, merged_table(base, info))
}

/// The tables with others merged in.
pub open spec fn with_tables(
    tables: Seq<(Seq<char>, RawModel)>,
    more: Seq<(Seq<char>, RawModel)>,
) -> Seq<(Seq<char>, RawModel)>
    decreases more.len(),
{
    if more.len() == 0 {
        tables
    } else {
        with_table(with_tables(tables, more.drop_last()), more.last().0, more.last().1)
    }
}

/// The node kinds of a region with others added.
pub open spec fn with_region(
    regions: Seq<(Seq<char>, Seq<Seq<char>>)>,
    region: Seq<char>,
    nodes: Seq<Seq<char>>,
) -> Seq<(Seq<char>, Seq<Seq<char>>)> {
    let base = match textmap::value_of(regions, region) {
        Some(list) => list,
        None => Seq::empty(),
    };
    textmap::with_value(regions, region, with_members(base, nodes))
}

/// The node kinds of all regions with others added.
pub open spec fn with_regions(
    regions: Seq<(Seq<char>, Seq<Seq<char>>)>,
    more: Seq<(Seq<char>, Seq<Seq<char>>)>,
) -> Seq<(Seq<char>, Seq<Seq<char>>)>
    decreases more.len(),
{
    if more.len() == 0 {
        regions
    } else {
        with_region(with_regions(regions, more.drop_last()), more.last().0, more.last().1)
    }
}

/// What two files told together.
pub open spec fn merged(a: DiscoveryModel, b: DiscoveryModel) -> DiscoveryModel {
    DiscoveryModel {
        tables: with_tables(a.tables, b.tables),
        regions: with_regions(a.regions, b.regions),
    }
}

#[verifier::loop_isolation(false)]
fn add_columns(columns: &mut TextMap<String>, more: &TextMap<String>)
    ensures
        final(columns).deep_view() == with_columns(old(columns).deep_view(), more.deep_view()),
{
    let ghost start = columns.deep_view();
    let ghost all = more.deep_view();
    let mut i: usize = 0;
    while i < more.entries.len()
        invariant
            i <= more.entries@.len(),
            columns.deep_view() == with_columns(start, all.take(i as int)),
        decreases more.entries@.len() - i,
    {
        columns.insert_new(more.entries[i].0.clone(), more.entries[i].1.clone());
        assert(all.take(i + 1).drop_last() =~= all.take(i as int));
        assert(all.take(i + 1).last() == (more.entries@[i as int].0@, more.entries@[i as int].1@));
        i += 1;
    }
    assert(all.take(i as int) =~= all);
}

#[verifier::loop_isolation(false)]
fn add_members(list: &mut Vec<String>, more: &Vec<String>)
    ensures
        final(list).deep_view() == with_members(old(list).deep_view(), more.deep_view()),
{
    let ghost start = list.deep_view();
    let ghost all = more.deep_view();
    let mut i: usize = 0;
    while i < more.len()
        invariant
            i <= more@.len(),
            list.deep_view() == with_members(start, all.take(i as int)),
        decreases more@.len() - i,
    {
        add_member(list, more[i].as_str());
        assert(all.take(i + 1).drop_last() =~= all.take(i as int));
        i += 1;
    }
    assert(all.take(i as int) =~= all);
}

/// Merges what another file told of a table.
pub fn merge_table(base: &mut RawTableInfo, info: &RawTableInfo)
    ensures
        final(base).deep_view() == merged_table(old(base).deep_view(), info.deep_view()),
{
    add_columns(&mut base.columns, &info.columns);
    add_members(&mut base.parent_tables, &info.parent_tables);
    if info.has_parent {
        base.has_parent = true;
    }
    if info.is_root {
        base.is_root = true;
    }
    if base.region_id.is_none() {
        base.region_id = copy_opt(&info.region_id);
    }
    if base.node_id.is_none() {
        base.node_id = copy_opt(&info.node_id);
    }
}

fn merge_into(tables: &mut TextMap<RawTableInfo>, name: &String, info: &RawTableInfo)
    ensures
        final(tables).deep_view() == with_table(
            old(tables).deep_view(),
            name@,
            info.deep_view(),
        ),
{
    let ghost m = tables.deep_view();
    match place_of(&tables.entries, name.as_str()) {
        Some(i) => {
            assert(m[i as int].1 == tables.entries@[i as int].1.deep_view());
            merge_table(&mut tables.entries[i].1, info);
            proof {
                textmap::lemma_key_pos(m, name@);
            }
            assert(tables.deep_view() =~= with_table(m, name@, info.deep_view()));
        },
        None => {
            let mut fresh = RawTableInfo::new(info.source_type.as_str());
            merge_table(&mut fresh, info);
            tables.entries.push((name.clone(), fresh));
            assert(tables.deep_view() =~= with_table(m, name@, info.deep_view()));
        },
    }
}

fn note_nodes(regions: &mut TextMap<Vec<String>>, region: &str, nodes: &Vec<String>)
    ensures
        final(regions).deep_view() == with_region(
            old(regions).deep_view(),
            region@,
            nodes.deep_view(),
        ),
{
    let ghost m = regions.deep_view();
    match place_of(&regions.entries, region) {
        Some(i) => {
            assert(m[i as int].1 == regions.entries@[i as int].1.deep_view());
            add_members(&mut regions.entries[i].1, nodes);
            proof {
                textmap::lemma_key_pos(m, region@);
            }
            assert(regions.deep_view() =~= with_region(m, region@, nodes.deep_view()));
        },
        None => {
            let mut list: Vec<String> = Vec::new();
            assert(list.deep_view() =~= Seq::<Seq<char>>::empty());
            add_members(&mut list, nodes);
            regions.entries.push((owned(region), list));
            assert(regions.deep_view() =~= with_region(m, region@, nodes.deep_view()));
        },
    }
}

/// Merges what another file told into what is known.
#[verifier::loop_isolation(false)]
pub fn merge_discovery(global: &mut FileDiscovery, local: &FileDiscovery)
    ensures
        final(global).deep_view() == merged(old(global).deep_view(), local.deep_view()),
{
    let ghost start = global.deep_view();
    let ghost tables = local.tables.deep_view();
    let ghost regions = local.region_node_ids.deep_view();
    let mut i: usize = 0;
    while i < local.tables.entries.len()
        invariant
            i <= local.tables.entries@.len(),
            global.tables.deep_view() == with_tables(start.tables, tables.take(i as int)),
            global.region_node_ids.deep_view() == start.regions,
        decreases local.tables.entries@.len() - i,
    {
        merge_into(&mut global.tables, &local.tables.entries[i].0, &local.tables.entries[i].1);
        assert(tables.take(i + 1).drop_last() =~= tables.take(i as int));
        assert(tables[i as int] == (
            local.tables.entries@[i as int].0@,
            local.tables.entries@[i as int].1.deep_view(),
        ));
        i += 1;
    }
    assert(tables.take(i as int) =~= tables);
    let mut j: usize = 0;
    while j < local.region_node_ids.entries.len()
        invariant
            j <= local.region_node_ids.entries@.len(),
            global.tables.deep_view() == with_tables(start.tables, tables),
            global.region_node_ids.deep_view() == with_regions(
                start.regions,
                regions.take(j as int),
            ),
        decreases local.region_node_ids.entries@.len() - j,
    {
        let p = &local.region_node_ids.entries[j];
        note_nodes(&mut global.region_node_ids, p.0.as_str(), &p.1);
        assert(regions.take(j + 1).drop_last() =~= regions.take(j as int));
        assert(regions[j as int] == (p.0@, p.1.deep_view()));
        j += 1;
    }
    assert(regions.take(j as int) =~= regions);
}

/// Merging keeps every column that was known, with its type.
pub proof fn law_merge_keeps_columns(
    columns: Seq<(Seq<char>, Seq<char>)>,
    more: Seq<(Seq<char>, Seq<char>)>,
    name: Seq<char>,
)
    ensures
        textmap::has_key(columns, name) ==> textmap::value_of(with_columns(columns, more), name)
            == textmap::value_of(columns, name),
        textmap::has_key(with_columns(columns, more), name) <==> textmap::has_key(columns, name)
            || textmap::has_key(more, name),
        columns.is_prefix_of(with_columns(columns, more)),
    decreases more.len(),
{
    if more.len() > 0 {
        law_merge_keeps_columns(columns, more.drop_last(), name);
        let before = with_columns(columns, more.drop_last());
        let after = with_columns(columns, more);
        textmap::lemma_key_pos(before, name);
        textmap::lemma_key_pos(after, name);
        textmap::lemma_key_pos(columns, name);
        if !textmap::has_key(before, more.last().0) {
            assert(after.drop_last() =~= before);
        }
    }
}

// ---------------------------------------------------------------------------
// Resource trees
// ---------------------------------------------------------------------------

/// Whether the value of an attribute is stored beside its handle.
pub open spec fn stores_value(a: NodeAttributeModel) -> bool {
    a.handle is None || a.attr_type != "TranslatedString"@ || Some(a.value) != a.handle
}

/// Whether an attribute is stored at all.
pub open spec fn stores_attribute(a: NodeAttributeModel) -> bool {
    a.id.len() > 0 && a.id != "_OriginalFileVersion_"@
}

/// The column of an attribute's handle.
pub open spec fn handle_column(a: NodeAttributeModel) -> Seq<char> {
    if a.attr_type == "TranslatedString"@ {
        a.id
    } else {
        a.id + "_handle"@
    }
}

/// The type of an attribute's handle.
pub open spec fn handle_type(a: NodeAttributeModel) -> Seq<char> {
    if a.attr_type.len() == 0 {
        "TranslatedString"@
    } else {
        a.attr_type
    }
}

/// The columns with those of an attribute.
pub open spec fn with_attribute(
    columns: Seq<(Seq<char>, Seq<char>)>,
    a: NodeAttributeModel,
) -> Seq<(Seq<char>, Seq<char>)> {
    let valued = if stores_value(a) {
        textmap::with_default(columns, a.id, a.attr_type)
    } else {
        columns
    };
    let handled = if a.handle is Some {
        textmap::with_default(valued, handle_column(a), handle_type(a))
    } else {
        valued
    };
    let versioned = if a.attr_type == "TranslatedString"@ && a.version is Some {
        textmap::with_default(handled, a.id + "_version"@, "int32"@)
    } else {
        handled
    };
    if stores_attribute(a) {
        versioned
    } else {
        columns
    }
}

/// The columns with those of several attributes.
pub open spec fn with_attributes(
    columns: Seq<(Seq<char>, Seq<char>)>,
    attrs: Seq<NodeAttributeModel>,
) -> Seq<(Seq<char>, Seq<char>)>
    decreases attrs.len(),
{
    if attrs.len() == 0 {
        columns
    } else {
        with_attribute(with_attributes(columns, attrs.drop_last()), attrs.last())
    }
}

/// Whether the value of an attribute is stored beside its handle.
pub fn keeps_value(attr: &LsxNodeAttribute) -> (r: bool)
    ensures
        r == stores_value(attr.deep_view()),
{
    match &attr.handle {
        None => true,
        Some(h) => !text_eq(attr.attr_type.as_str(), "TranslatedString") || !text_eq(
            attr.value.as_str(),
            h.as_str(),
        ),
    }
}

/// Two texts in one.
pub fn glued(a: &str, b: &str) -> (r: String)
    ensures
        r@ == a@ + b@,
{
    let mut r = owned(a);
    r.append(b);
    r
}

/// Adds the columns of an attribute.
pub fn collect_resource_columns(columns: &mut TextMap<String>, attr: &LsxNodeAttribute)
    ensures
        final(columns).deep_view() == with_attribute(old(columns).deep_view(), attr.deep_view()),
{
    if attr.id.as_str().is_empty() || text_eq(attr.id.as_str(), "_OriginalFileVersion_") {
        return;
    }
    let localized = text_eq(attr.attr_type.as_str(), "TranslatedString");
    if keeps_value(attr) {
        columns.insert_new(attr.id.clone(), attr.attr_type.clone());
    }
    if attr.handle.is_some() {
        let col = if localized {
            attr.id.clone()
        } else {
            glued(attr.id.as_str(), "_handle")
        };
        let ty = if attr.attr_type.as_str().is_empty() {
            owned("TranslatedString")
        } else {
            attr.attr_type.clone()
        };
        columns.insert_new(col, ty);
    }
    if localized && attr.version.is_some() {
        columns.insert_new(glued(attr.id.as_str(), "_version"), owned("int32"));
    }
}

/// The table of a node before tables are renamed.
pub open spec fn node_table(region_id: Seq<char>, node_id: Seq<char>) -> Seq<char> {
    "lsx__"@ + files::sanitized(region_id) + "__"@ + files::sanitized(node_id)
}

/// The table of a node before tables are renamed.
pub fn table_for_node(region_id: &str, node_id: &str) -> (r: String)
    ensures
        r@ == node_table(region_id@, node_id@),
{
    let mut r = owned("lsx__");
    let a = sanitize_id(region_id);
    let b = sanitize_id(node_id);
    r.append(a.as_str());
    r.append("__");
    r.append(b.as_str());
    r
}

/// What is known after a node was seen, without its children.
pub open spec fn after_node(
    d: DiscoveryModel,
    region_id: Seq<char>,
    node_id: Seq<char>,
    attrs: Seq<NodeAttributeModel>,
    parent: Option<Seq<char>>,
    is_root: bool,
) -> DiscoveryModel {
    let name = node_table(region_id, node_id);
    let base = match textmap::value_of(d.tables, name) {
        Some(t) => t,
        None => RawModel {
            region_id: Some(region_id),
            node_id: Some(node_id),
            ..blank_table("lsx"@)
        },
    };
    let seen = RawModel {
        is_root: base.is_root || is_root,
        has_parent: base.has_parent || parent is Some,
        parent_tables: match parent {
            Some(p) => textmap::with_member(base.parent_tables, p),
            None => base.parent_tables,
        },
        columns: with_attributes(base.columns, attrs),
        ..base
    };
    DiscoveryModel {
        tables: textmap::with_value(d.tables, name, seen),
        regions: with_region(d.regions, region_id, seq![node_id]),
    }
}

/// What is known after a node and all nodes below it were seen.
pub open spec fn after_tree(
    d: DiscoveryModel,
    region_id: Seq<char>,
    node: LsxNode,
    parent: Option<Seq<char>>,
    is_root: bool,
) -> DiscoveryModel
    decreases node,
{
    after_trees(
        after_node(d, region_id, node.id@, node.attributes.deep_view(), parent, is_root),
        region_id,
        node.children@,
        Some(node_table(region_id, node.id@)),
        false,
    )
}

/// What is known after several trees were seen.
pub open spec fn after_trees(
    d: DiscoveryModel,
    region_id: Seq<char>,
    nodes: Seq<LsxNode>,
    parent: Option<Seq<char>>,
    is_root: bool,
) -> DiscoveryModel
    decreases nodes,
{
    if nodes.len() == 0 {
        d
    } else {
        after_tree(
            after_trees(d, region_id, nodes.drop_last(), parent, is_root),
            region_id,
            nodes.last(),
            parent,
            is_root,
        )
    }
}

#[verifier::loop_isolation(false)]
fn add_attributes(columns: &mut TextMap<String>, attrs: &Vec<LsxNodeAttribute>)
    ensures
        final(columns).deep_view() == with_attributes(old(columns).deep_view(), attrs.deep_view()),
{
    let ghost start = columns.deep_view();
    let ghost all = attrs.deep_view();
    let mut i: usize = 0;
    while i < attrs.len()
        invariant
            i <= attrs@.len(),
            columns.deep_view() == with_attributes(start, all.take(i as int)),
        decreases attrs@.len() - i,
    {
        collect_resource_columns(columns, &attrs[i]);
        assert(all.take(i + 1).drop_last() =~= all.take(i as int));
        i += 1;
    }
    assert(all.take(i as int) =~= all);
}

fn note_table(
    info: &mut RawTableInfo,
    attrs: &Vec<LsxNodeAttribute>,
    parent: &Option<String>,
    is_root: bool,
)
    ensures
        final(info).deep_view() == (RawModel {
            is_root: old(info).is_root || is_root,
            has_parent: old(info).has_parent || parent is Some,
            parent_tables: match parent.deep_view() {
                Some(p) => textmap::with_member(old(info).deep_view().parent_tables, p),
                None => old(info).deep_view().parent_tables,
            },
            columns: with_attributes(old(info).deep_view().columns, attrs.deep_view()),
            ..old(info).deep_view()
        }),
{
    if is_root {
        info.is_root = true;
    }
    if let Some(p) = parent {
        add_member(&mut info.parent_tables, p.as_str());
        info.has_parent = true;
    }
    add_attributes(&mut info.columns, attrs);
}

fn note_node(
    d: &mut FileDiscovery,
    region_id: &str,
    node: &LsxNode,
    parent: &Option<String>,
    is_root: bool,
)
    ensures
        final(d).deep_view() == after_node(
            old(d).deep_view(),
            region_id@,
            node.id@,
            node.attributes.deep_view(),
            parent.deep_view(),
            is_root,
        ),
{
    let ghost start = d.deep_view();
    let ghost m = d.tables.deep_view();
    let name = table_for_node(region_id, node.id.as_str());
    let mut ids: Vec<String> = Vec::new();
    ids.push(node.id.clone());
    assert(ids.deep_view() =~= seq![node.id@]);
    note_nodes(&mut d.region_node_ids, region_id, &ids);
    match place_of(&d.tables.entries, name.as_str()) {
        Some(i) => {
            assert(m[i as int].1 == d.tables.entries@[i as int].1.deep_view());
            note_table(&mut d.tables.entries[i].1, &node.attributes, parent, is_root);
            proof {
                textmap::lemma_key_pos(m, name@);
            }
            assert(d.tables.deep_view() =~= after_node(
                start,
                region_id@,
                node.id@,
                node.attributes.deep_view(),
                parent.deep_view(),
                is_root,
            ).tables);
        },
        None => {
            let mut fresh = RawTableInfo::new("lsx");
            fresh.region_id = Some(owned(region_id));
            fresh.node_id = Some(node.id.clone());
            note_table(&mut fresh, &node.attributes, parent, is_root);
            d.tables.entries.push((name, fresh));
            assert(d.tables.deep_view() =~= after_node(
                start,
                region_id@,
                node.id@,
                node.attributes.deep_view(),
                parent.deep_view(),
                is_root,
            ).tables);
        },
    }
}

/// Notes a node and all nodes below it.
#[verifier::loop_isolation(false)]
pub fn discover_resource_node(
    d: &mut FileDiscovery,
    region_id: &str,
    node: &LsxNode,
    parent: &Option<String>,
    is_root: bool,
)
    ensures
        final(d).deep_view() == after_tree(
            old(d).deep_view(),
            region_id@,
            *node,
            parent.deep_view(),
            is_root,
        ),
    decreases node,
{
    note_node(d, region_id, node, parent, is_root);
    let ghost start = d.deep_view();
    let table = Some(table_for_node(region_id, node.id.as_str()));
    let mut i: usize = 0;
    while i < node.children.len()
        invariant
            i <= node.children@.len(),
            d.deep_view() == after_trees(
                start,
                region_id@,
                node.children@.take(i as int),
                table.deep_view(),
                false,
            ),
        decreases node.children@.len() - i,
    {
        discover_resource_node(d, region_id, &node.children[i], &table, false);
        assert(node.children@.take(i + 1).drop_last() =~= node.children@.take(i as int));
        i += 1;
    }
    assert(node.children@.take(i as int) =~= node.children@);
}

/// What is known after a region was seen.
pub open spec fn after_region(d: DiscoveryModel, region: LsxRegion) -> DiscoveryModel {
    if files::is_skipped_region(region.id@) {
        d
    } else {
        after_trees(d, region.id@, region.nodes@, None, true)
    }
}

/// What is known after several regions were seen.
pub open spec fn after_regions(d: DiscoveryModel, regions: Seq<LsxRegion>) -> DiscoveryModel
    decreases regions.len(),
{
    if regions.len() == 0 {
        d
    } else {
        after_region(after_regions(d, regions.drop_last()), regions.last())
    }
}

#[verifier::loop_isolation(false)]
fn note_region(d: &mut FileDiscovery, region: &LsxRegion)
    ensures
        final(d).deep_view() == after_region(old(d).deep_view(), *region),
{
    if skips_region(region.id.as_str()) {
        return;
    }
    let ghost start = d.deep_view();
    let no_parent: Option<String> = None;
    let mut i: usize = 0;
    while i < region.nodes.len()
        invariant
            i <= region.nodes@.len(),
            d.deep_view() == after_trees(
                start,
                region.id@,
                region.nodes@.take(i as int),
                None,
                true,
            ),
        decreases region.nodes@.len() - i,
    {
        discover_resource_node(d, region.id.as_str(), &region.nodes[i], &no_parent, true);
        assert(region.nodes@.take(i + 1).drop_last() =~= region.nodes@.take(i as int));
        i += 1;
    }
    assert(region.nodes@.take(i as int) =~= region.nodes@);
}

/// What a resource file told; a file that could not be parsed told nothing.
#[verifier::loop_isolation(false)]
pub fn discover_lsx(resource: &Option<LsxResource>) -> (r: FileDiscovery)
    ensures
        r.deep_view() == (match resource {
            Some(res) => after_regions(nothing_seen(), res.regions@),
            None => nothing_seen(),
        }),
{
    let mut d = FileDiscovery::new();
    if let Some(res) = resource {
        let mut i: usize = 0;
        while i < res.regions.len()
            invariant
                i <= res.regions@.len(),
                d.deep_view() == after_regions(nothing_seen(), res.regions@.take(i as int)),
            decreases res.regions@.len() - i,
        {
            note_region(&mut d, &res.regions[i]);
            assert(res.regions@.take(i + 1).drop_last() =~= res.regions@.take(i as int));
            i += 1;
        }
        assert(res.regions@.take(i as int) =~= res.regions@);
    }
    d
}

} // verus!
