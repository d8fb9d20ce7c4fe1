//! Files as content that is ready to be inserted.

use vstd::prelude::*;
use crate::discovery;
use crate::discovery::{glued, keeps_value, table_for_node};
use crate::files;
use crate::files::{file_name_of, skips_region, stem_of, FileEntry, FileModel, FileType};
use crate::loca;
use crate::loca::{parse_loca, parse_loca_xml_entries, LocaModel, ParsedLocaEntry};
use crate::models::{LsxNode, LsxNodeAttribute, LsxRegion, LsxResource, NodeAttributeModel};
use crate::schema;
use crate::schema::{DiscoveredSchema, PkStrategy, SchemaModel, TableModel};
use crate::stats_discovery;
use crate::stats_discovery::is_idle;
use crate::stats_lists;
use crate::stats_lists::{equipment_entries, modifier_rows, value_list_rows, EquipmentModel,
    ModifierModel, ParsedEquipmentEntry, ParsedModifierRow, ParsedValueListRow, ValueModel};
use crate::stats_parse;
use crate::stats_parse::{parse_nonstandard_stats_content, parse_stats_entries_content,
    ParsedStatsEntry, StatsContent, StatsModel};
use crate::text;
use crate::text::{contains, decimal_text, from_utf8, lines, owned, starts_with, strip_prefix_ci,
    text_eq, to_ascii_lower, trim};
use crate::textmap;

verus! {

// ---------------------------------------------------------------------------
// Trees of nodes
// ---------------------------------------------------------------------------

/// A node with the table that it goes to.
#[derive(Debug)]
pub struct ParsedNode {
    pub table_name: String,
    /// Column, type and value, the column in lower case.
    pub attrs: Vec<(String, String, String)>,
    pub has_data: bool,
    pub children: Vec<ParsedNode>,
}

/// What a node with its table says.
pub struct NodeModel {
    pub table_name: Seq<char>,
    pub attrs: Seq<(Seq<char>, Seq<char>, Seq<char>)>,
    pub has_data: bool,
    pub children: Seq<NodeModel>,
}

/// What a node with its table says.
pub open spec fn node_model(node: ParsedNode) -> NodeModel
    decreases node,
{
    NodeModel {
        table_name: node.table_name@,
        attrs: node.attrs.deep_view(),
        has_data: node.has_data,
        children: node_models(node.children@),
    }
}

/// What several nodes with their tables say.
pub open spec fn node_models(nodes: Seq<ParsedNode>) -> Seq<NodeModel>
    decreases nodes,
{
    if nodes.len() == 0 {
        Seq::empty()
    } else {
        node_models(nodes.drop_last()).push(node_model(nodes.last()))
    }
}

impl DeepView for ParsedNode {
    type V = NodeModel;

    open spec fn deep_view(&self) -> NodeModel {
        node_model(*self)
    }
}

/// Each node stands for itself.
pub proof fn lemma_node_models(nodes: Seq<ParsedNode>)
    ensures
        node_models(nodes).len() == nodes.len(),
        forall|i: int|
            0 <= i < nodes.len() ==> #[trigger] node_models(nodes)[i] == node_model(nodes[i]),
    decreases nodes.len(),
{
    if nodes.len() > 0 {
        lemma_node_models(nodes.drop_last());
        assert forall|i: int| 0 <= i < nodes.len() implies #[trigger] node_models(nodes)[i]
            == node_model(nodes[i]) by {
            if i < nodes.len() - 1 {
                assert(node_models(nodes.drop_last())[i] == node_model(nodes.drop_last()[i]));
            }
        }
    }
}

/// The values of an attribute behind those of earlier ones: its value, its
/// handle and its version, as far as they are stored.
pub open spec fn with_values(
    attrs: Seq<(Seq<char>, Seq<char>, Seq<char>)>,
    a: NodeAttributeModel,
) -> Seq<(Seq<char>, Seq<char>, Seq<char>)> {
    if !discovery::stores_attribute(a) {
        attrs
    } else {
        let column = text::ascii_lowered(a.id);
        let localized = a.attr_type == "TranslatedString"@;
        let valued = if discovery::stores_value(a) {
            attrs.push((column, a.attr_type, a.value))
        } else {
            attrs
        };
        let handled = match a.handle {
            Some(h) => valued.push(
                (
                    if localized {
                        column
                    } else {
                        column + "_handle"@
                    },
                    discovery::handle_type(a),
                    h,
                ),
            ),
            None => valued,
        };
        match a.version {
            Some(v) => if localized {
                handled.push((column + "_version"@, "int32"@, text::decimal(v as nat)))
            } else {
                handled
            },
            None => handled,
        }
    }
}

/// The values of several attributes.
pub open spec fn values_of(attrs: Seq<NodeAttributeModel>) -> Seq<(Seq<char>, Seq<char>, Seq<char>)>
    decreases attrs.len(),
{
    if attrs.len() == 0 {
        Seq::empty()
    } else {
        with_values(values_of(attrs.drop_last()), attrs.last())
    }
}

/// Adds the values of an attribute.
pub fn collect_resource_attribute(
    attr: &LsxNodeAttribute,
    attrs: &mut Vec<(String, String, String)>,
)
    ensures
        final(attrs).deep_view() == with_values(old(attrs).deep_view(), attr.deep_view()),
{
    if attr.id.as_str().is_empty() || text_eq(attr.id.as_str(), "_OriginalFileVersion_") {
        return;
    }
    let ghost start = attrs.deep_view();
    let column = to_ascii_lower(attr.id.as_str());
    let localized = text_eq(attr.attr_type.as_str(), "TranslatedString");
    if keeps_value(attr) {
        attrs.push((column.clone(), attr.attr_type.clone(), attr.value.clone()));
        assert(attrs.deep_view() =~= start.push((column@, attr.attr_type@, attr.value@)));
    }
    let ghost valued = attrs.deep_view();
    match &attr.handle {
        Some(h) => {
            let name = if localized {
                column.clone()
            } else {
                glued(column.as_str(), "_handle")
            };
            let ty = if attr.attr_type.as_str().is_empty() {
                owned("TranslatedString")
            } else {
                attr.attr_type.clone()
            };
            let ghost added = (name@, ty@, h@);
            attrs.push((name, ty, h.clone()));
            assert(attrs.deep_view() =~= valued.push(added));
        },
        None => {},
    }
    let ghost handled = attrs.deep_view();
    match attr.version {
        Some(v) => if localized {
            let name = glued(column.as_str(), "_version");
            let number = decimal_text(v);
            let ghost added = (name@, "int32"@, number@);
            attrs.push((name, owned("int32"), number));
            assert(attrs.deep_view() =~= handled.push(added));
        },
        None => {},
    }
}

/// The first place of a column among values.
pub open spec fn column_place(
    attrs: Seq<(Seq<char>, Seq<char>, Seq<char>)>,
    column: Seq<char>,
    from: int,
) -> int
    decreases attrs.len() - from,
{
    if 0 <= from < attrs.len() && attrs[from].0 != column {
        column_place(attrs, column, from + 1)
    } else {
        from
    }
}

/// The values with the key of the table, if it is among them, in the first
/// place.
pub open spec fn key_first(
    attrs: Seq<(Seq<char>, Seq<char>, Seq<char>)>,
    table: Option<TableModel>,
) -> Seq<(Seq<char>, Seq<char>, Seq<char>)> {
    match table {
        Some(t) => {
            let at = column_place(attrs, text::ascii_lowered(t.pk_strategy.key_column()), 0);
            if t.pk_strategy != PkStrategy::Rowid && 0 <= at < attrs.len() {
                attrs.update(0, attrs[at]).update(at, attrs[0])
            } else {
                attrs
            }
        },
        None => attrs,
    }
}

proof fn lemma_column_place(
    attrs: Seq<(Seq<char>, Seq<char>, Seq<char>)>,
    column: Seq<char>,
    from: int,
)
    requires
        0 <= from <= attrs.len(),
    ensures
        from <= column_place(attrs, column, from) <= attrs.len(),
        column_place(attrs, column, from) < attrs.len() ==> attrs[column_place(
            attrs,
            column,
            from,
        )].0 == column,
    decreases attrs.len() - from,
{
    if from < attrs.len() && attrs[from].0 != column {
        lemma_column_place(attrs, column, from + 1);
    }
}

/// Moving the key to the front loses no value and adds none, and the key is
/// then the first value wherever there is one.
pub proof fn law_key_first(
    attrs: Seq<(Seq<char>, Seq<char>, Seq<char>)>,
    table: TableModel,
)
    ensures
        key_first(attrs, Some(table)).to_multiset() == attrs.to_multiset(),
        table.pk_strategy != PkStrategy::Rowid && (exists|i: int|
            0 <= i < attrs.len() && #[trigger] attrs[i].0 == text::ascii_lowered(
                table.pk_strategy.key_column(),
            )) ==> key_first(attrs, Some(table))[0].0 == text::ascii_lowered(
            table.pk_strategy.key_column(),
        ),
{
    broadcast use vstd::seq_lib::group_to_multiset_ensures;

    let column = text::ascii_lowered(table.pk_strategy.key_column());
    let at = column_place(attrs, column, 0);
    lemma_column_place(attrs, column, 0);
    if table.pk_strategy != PkStrategy::Rowid {
        if 0 <= at < attrs.len() {
            let once = attrs.update(0, attrs[at]);
            let twice = once.update(at, attrs[0]);
            assert(once.to_multiset() == attrs.to_multiset().insert(attrs[at]).remove(attrs[0]));
            assert(twice.to_multiset() == once.to_multiset().insert(attrs[0]).remove(once[at]));
            assert(once[at] == attrs[at]);
            assert(attrs.to_multiset().insert(attrs[at]).remove(attrs[0]).insert(attrs[0]).remove(
                attrs[at],
            ) =~= attrs.to_multiset());
        } else {
            assert forall|i: int| 0 <= i < attrs.len() implies #[trigger] attrs[i].0 != column by {
                lemma_no_column(attrs, column, 0, i);
            }
        }
    }
}

proof fn lemma_no_column(
    attrs: Seq<(Seq<char>, Seq<char>, Seq<char>)>,
    column: Seq<char>,
    from: int,
    i: int,
)
    requires
        0 <= from <= i < attrs.len(),
        column_place(attrs, column, from) == attrs.len(),
    ensures
        attrs[i].0 != column,
    decreases attrs.len() - from,
{
    if from < i {
        lemma_no_column(attrs, column, from + 1, i);
    }
}

#[verifier::loop_isolation(false)]
fn move_key(attrs: &mut Vec<(String, String, String)>, column: &str)
    ensures
        final(attrs).deep_view() == ({
            let at = column_place(old(attrs).deep_view(), column@, 0);
            if 0 <= at < old(attrs).deep_view().len() {
                old(attrs).deep_view().update(0, old(attrs).deep_view()[at]).update(
                    at,
                    old(attrs).deep_view()[0],
                )
            } else {
                old(attrs).deep_view()
            }
        }),
{
    let ghost all = attrs.deep_view();
    let mut at: usize = 0;
    while at < attrs.len() && !text_eq(attrs[at].0.as_str(), column)
        invariant
            at <= attrs@.len(),
            attrs.deep_view() == all,
            column_place(all, column@, at as int) == column_place(all, column@, 0),
        decreases attrs@.len() - at,
    {
        assert(all[at as int].0 == attrs@[at as int].0@);
        at += 1;
    }
    if at < attrs.len() {
        assert(all[at as int].0 == attrs@[at as int].0@);
        if at != 0 {
            let ghost was = attrs@;
            let key = attrs.remove(at);
            let first = attrs.remove(0);
            attrs.insert(0, key);
            attrs.insert(at, first);
            assert(attrs@ =~= was.update(0, was[at as int]).update(at as int, was[0]));
            assert(attrs.deep_view() =~= all.update(0, all[at as int]).update(at as int, all[0]));
        } else {
            assert(all.update(0, all[0]).update(0, all[0]) =~= all);
        }
    }
}

/// The table of a node: the one that its name resolves to, or else that of
/// its name.
pub open spec fn table_of_node(
    region_id: Seq<char>,
    node_id: Seq<char>,
    schema: SchemaModel,
) -> Seq<char> {
    let raw = discovery::node_table(region_id, node_id);
    match schema::resolved(schema, raw) {
        Some(t) => t,
        None => raw,
    }
}

/// A node as content of its table.
pub open spec fn tree_of(region_id: Seq<char>, node: LsxNode, schema: SchemaModel) -> NodeModel
    decreases node,
{
    let table = table_of_node(region_id, node.id@, schema);
    let values = values_of(node.attributes.deep_view());
    NodeModel {
        table_name: table,
        attrs: key_first(values, textmap::value_of(schema.tables, table)),
        has_data: values.len() > 0,
        children: trees_of(region_id, node.children@, schema),
    }
}

/// Several nodes as content of their tables.
pub open spec fn trees_of(
    region_id: Seq<char>,
    nodes: Seq<LsxNode>,
    schema: SchemaModel,
) -> Seq<NodeModel>
    decreases nodes,
{
    if nodes.len() == 0 {
        Seq::empty()
    } else {
        trees_of(region_id, nodes.drop_last(), schema).push(
            tree_of(region_id, nodes.last(), schema),
        )
    }
}

#[verifier::loop_isolation(false)]
fn collect_attributes(list: &Vec<LsxNodeAttribute>) -> (r: Vec<(String, String, String)>)
    ensures
        r.deep_view() == values_of(list.deep_view()),
{
    let ghost all = list.deep_view();
    let mut r: Vec<(String, String, String)> = Vec::new();
    assert(r.deep_view() =~= values_of(all.take(0)));
    let mut i: usize = 0;
    while i < list.len()
        invariant
            i <= list@.len(),
            r.deep_view() == values_of(all.take(i as int)),
        decreases list@.len() - i,
    {
        assert(all[i as int] == list@[i as int].deep_view());
        assert(all.take(i + 1).drop_last() =~= all.take(i as int));
        collect_resource_attribute(&list[i], &mut r);
        i += 1;
    }
    assert(all.take(i as int) =~= all);
    r
}

fn own_content(
    region_id: &str,
    node_id: &str,
    list: &Vec<LsxNodeAttribute>,
    schema: &DiscoveredSchema,
) -> (r: (String, Vec<(String, String, String)>))
    ensures
        r.0@ == table_of_node(region_id@, node_id@, schema.deep_view()),
        r.1.deep_view() == key_first(
            values_of(list.deep_view()),
            textmap::value_of(
                schema.deep_view().tables,
                table_of_node(region_id@, node_id@, schema.deep_view()),
            ),
        ),
        r.1@.len() == values_of(list.deep_view()).len(),
{
    let raw = table_for_node(region_id, node_id);
    let table_name = match schema.resolve_table(raw.as_str()) {
        Some(t) => t,
        None => raw,
    };
    let mut attrs = collect_attributes(list);
    match schema.tables.get(table_name.as_str()) {
        Some(ts) => {
            if ts.pk_strategy != PkStrategy::Rowid {
                let column = to_ascii_lower(ts.pk_strategy.pk_column());
                move_key(&mut attrs, column.as_str());
            }
        },
        None => {},
    }
    assert(attrs.deep_view().len() == attrs@.len());
    (table_name, attrs)
}

/// Makes a node, with all nodes below it, the content of tables.
#[verifier::loop_isolation(false)]
pub fn build_parsed_node(region_id: &str, node: &LsxNode, schema: &DiscoveredSchema) -> (r:
    ParsedNode)
    ensures
        r.deep_view() == tree_of(region_id@, *node, schema.deep_view()),
    decreases node,
{
    let (table_name, attrs) = own_content(region_id, node.id.as_str(), &node.attributes, schema);
    let has_data = attrs.len() > 0;
    let ghost all = node.children@;
    let mut children: Vec<ParsedNode> = Vec::new();
    let mut i: usize = 0;
    while i < node.children.len()
        invariant
            i <= node.children@.len(),
            all == node.children@,
            node_models(children@) == trees_of(region_id@, all.take(i as int), schema.deep_view()),
        decreases node.children@.len() - i,
    {
        assert(all.take(i + 1).drop_last() =~= all.take(i as int));
        let ghost before = children@;
        let child = build_parsed_node(region_id, &node.children[i], schema);
        children.push(child);
        assert(children@.drop_last() =~= before);
        i += 1;
    }
    assert(all.take(i as int) =~= all);
    ParsedNode { table_name, attrs, has_data, children }
}

// ---------------------------------------------------------------------------
// The content of a file
// ---------------------------------------------------------------------------

/// What a file holds.
#[allow(inconsistent_fields)]
#[derive(Debug)]
pub enum ParsedContent {
    Lsx { last_region_id: Option<String>, root_nodes: Vec<ParsedNode> },
    Stats {
        entries: Vec<ParsedStatsEntry>,
        last_type: Option<String>,
        /// The text itself, where it holds no entry.
        raw_content: Option<String>,
    },
    Loca { entries: Vec<ParsedLocaEntry> },
    Equipment { entries: Vec<ParsedEquipmentEntry> },
    ValueLists { entries: Vec<ParsedValueListRow> },
    Modifiers { entries: Vec<ParsedModifierRow> },
    Empty,
}

/// What a file holds.
#[allow(inconsistent_fields)]
pub enum ContentModel {
    Lsx { last_region_id: Option<Seq<char>>, root_nodes: Seq<NodeModel> },
    Stats {
        entries: Seq<StatsModel>,
        last_type: Option<Seq<char>>,
        raw_content: Option<Seq<char>>,
    },
    Loca { entries: Seq<LocaModel> },
    Equipment { entries: Seq<EquipmentModel> },
    ValueLists { entries: Seq<ValueModel> },
    Modifiers { entries: Seq<ModifierModel> },
    Empty,
}

impl DeepView for ParsedContent {
    type V = ContentModel;

    open spec fn deep_view(&self) -> ContentModel {
        match self {
            ParsedContent::Lsx { last_region_id, root_nodes } => ContentModel::Lsx {
                last_region_id: last_region_id.deep_view(),
                root_nodes: node_models(root_nodes@),
            },
            ParsedContent::Stats { entries, last_type, raw_content } => ContentModel::Stats {
                entries: entries.deep_view(),
                last_type: last_type.deep_view(),
                raw_content: raw_content.deep_view(),
            },
            ParsedContent::Loca { entries } => ContentModel::Loca { entries: entries.deep_view() },
            ParsedContent::Equipment { entries } => ContentModel::Equipment {
                entries: entries.deep_view(),
            },
            ParsedContent::ValueLists { entries } => ContentModel::ValueLists {
                entries: entries.deep_view(),
            },
            ParsedContent::Modifiers { entries } => ContentModel::Modifiers {
                entries: entries.deep_view(),
            },
            ParsedContent::Empty => ContentModel::Empty,
        }
    }
}

/// The regions of a resource so far: the last one that counts, and all roots.
pub open spec fn roots_of(regions: Seq<LsxRegion>, schema: SchemaModel) -> (
    Option<Seq<char>>,
    Seq<NodeModel>,
)
    decreases regions.len(),
{
    if regions.len() == 0 {
        (None, Seq::empty())
    } else {
        let before = roots_of(regions.drop_last(), schema);
        let region = regions.last();
        if files::is_skipped_region(region.id@) {
            before
        } else {
            (Some(region.id@), before.1 + trees_of(region.id@, region.nodes@, schema))
        }
    }
}

/// The content of a resource.
pub open spec fn resource_content(regions: Seq<LsxRegion>, schema: SchemaModel) -> ContentModel {
    let roots = roots_of(regions, schema);
    if roots.1.len() == 0 {
        ContentModel::Empty
    } else {
        ContentModel::Lsx { last_region_id: roots.0, root_nodes: roots.1 }
    }
}

proof fn lemma_node_models_push(nodes: Seq<ParsedNode>, node: ParsedNode)
    ensures
        node_models(nodes.push(node)) == node_models(nodes).push(node_model(node)),
{
    assert(nodes.push(node).drop_last() =~= nodes);
}

#[verifier::loop_isolation(false)]
fn add_roots(roots: &mut Vec<ParsedNode>, region: &LsxRegion, schema: &DiscoveredSchema)
    ensures
        node_models(final(roots)@) == node_models(old(roots)@) + trees_of(
            region.id@,
            region.nodes@,
            schema.deep_view(),
        ),
{
    let ghost start = node_models(roots@);
    let ghost all = region.nodes@;
    assert(start + trees_of(region.id@, all.take(0), schema.deep_view()) =~= start);
    let mut i: usize = 0;
    while i < region.nodes.len()
        invariant
            i <= region.nodes@.len(),
            all == region.nodes@,
            node_models(roots@) == start + trees_of(
                region.id@,
                all.take(i as int),
                schema.deep_view(),
            ),
        decreases region.nodes@.len() - i,
    {
        assert(all.take(i + 1).drop_last() =~= all.take(i as int));
        let node = build_parsed_node(region.id.as_str(), &region.nodes[i], schema);
        proof {
            lemma_node_models_push(roots@, node);
        }
        roots.push(node);
        assert(node_models(roots@) =~= start + trees_of(
            region.id@,
            all.take(i + 1),
            schema.deep_view(),
        ));
        i += 1;
    }
    assert(all.take(i as int) =~= all);
}

/// The last region of a resource that is not skipped, and the trees of all such
/// regions.
#[verifier::loop_isolation(false)]
pub fn process_lsx(resource: &LsxResource, schema: &DiscoveredSchema) -> (r: (
    Option<String>,
    Vec<ParsedNode>,
))
    ensures
        roots_of(resource.regions@, schema.deep_view()) == (r.0.deep_view(), node_models(r.1@)),
{
    let ghost all = resource.regions@;
    let mut last_region_id: Option<String> = None;
    let mut root_nodes: Vec<ParsedNode> = Vec::new();
    let mut i: usize = 0;
    while i < resource.regions.len()
        invariant
            i <= resource.regions@.len(),
            all == resource.regions@,
            roots_of(all.take(i as int), schema.deep_view()) == (
                last_region_id.deep_view(),
                node_models(root_nodes@),
            ),
        decreases resource.regions@.len() - i,
    {
        assert(all.take(i + 1).drop_last() =~= all.take(i as int));
        let region = &resource.regions[i];
        if !skips_region(region.id.as_str()) {
            add_roots(&mut root_nodes, region, schema);
            last_region_id = Some(region.id.clone());
        }
        i += 1;
    }
    assert(all.take(i as int) =~= all);
    (last_region_id, root_nodes)
}

/// Makes a resource the content of tables.
pub fn parsed_content_from_resource(resource: &LsxResource, schema: &DiscoveredSchema) -> (r:
    ParsedContent)
    ensures
        r.deep_view() == resource_content(resource.regions@, schema.deep_view()),
{
    let (last_region_id, root_nodes) = process_lsx(resource, schema);
    proof {
        lemma_node_models(root_nodes@);
    }
    if root_nodes.len() == 0 {
        ParsedContent::Empty
    } else {
        ParsedContent::Lsx { last_region_id, root_nodes }
    }
}

/// The content of a resource file, where it could be read.
pub fn parse_lsx_file(resource: &Option<LsxResource>, schema: &DiscoveredSchema) -> (r:
    ParsedContent)
    ensures
        r.deep_view() == (match resource {
            Some(res) => resource_content(res.regions@, schema.deep_view()),
            None => ContentModel::Empty,
        }),
{
    match resource {
        Some(res) => parsed_content_from_resource(res, schema),
        None => ParsedContent::Empty,
    }
}

/// The text of a file whose contents are in memory. It fails where they are not,
/// and where they are not valid UTF-8.
pub fn read_text_content(file: &FileEntry) -> (r: Result<String, String>)
    ensures
        match r {
            Ok(s) => text_in(file.deep_view()) == Some(s@),
            Err(e) => text_in(file.deep_view()) is None && tells_no_text(file.deep_view(), e@),
        },
{
    match file.in_memory_bytes() {
        Some(bytes) => match from_utf8(bytes) {
            Ok(s) => Ok(s),
            Err(e) => {
                let told = glued("UTF-8 decode error: ", e.as_str());
                assert(told@.take("UTF-8 decode error: "@.len() as int)
                    =~= "UTF-8 decode error: "@);
                Err(told)
            },
        },
        None => Err(owned("Read error: the contents were not loaded")),
    }
}

/// The text of a file, where its contents are in memory and valid.
pub open spec fn text_in(file: FileModel) -> Option<Seq<char>> {
    match file.bytes {
        Some(b) => if vstd::utf8::valid_utf8(b) {
            Some(vstd::utf8::decode_utf8(b))
        } else {
            None
        },
        None => None,
    }
}

/// Whether an error tells why a file has no text: its contents are not in memory,
/// or they cannot be decoded. The text behind `UTF-8 decode error: ` is that of the
/// decoder.
pub open spec fn tells_no_text(file: FileModel, e: Seq<char>) -> bool {
    match file.bytes {
        Some(_) => "UTF-8 decode error: "@.is_prefix_of(e),
        None => e == "Read error: the contents were not loaded"@,
    }
}

/// What a resource file is to be read as.
#[derive(Debug)]
pub enum ResourceSource {
    /// A blank file, which holds no region
    Nothing,
    Lsf,
    Lsfx,
    Text(String),
}

/// What a resource file is to be read as, by its extension: `lsf` and `lsfx` files
/// are binary, and all others are text. It fails where the file has no contents
/// in memory, and where a text is not valid UTF-8.
pub fn parse_lsx_resource_file(file: &FileEntry) -> (r: Result<ResourceSource, String>)
    ensures
        ({
            let ext = extension_in(file.deep_view());
            if file.deep_view().bytes is None {
                r matches Err(e) && tells_no_text(file.deep_view(), e@)
            } else if ext == Some("lsf"@) {
                r == Ok::<ResourceSource, String>(ResourceSource::Lsf)
            } else if ext == Some("lsfx"@) {
                r == Ok::<ResourceSource, String>(ResourceSource::Lsfx)
            } else {
                match text_in(file.deep_view()) {
                    None => r matches Err(e) && tells_no_text(file.deep_view(), e@),
                    Some(content) => if text::trimmed(content).len() == 0 {
                        r == Ok::<ResourceSource, String>(ResourceSource::Nothing)
                    } else {
                        r matches Ok(ResourceSource::Text(c)) && c@ == content
                    },
                }
            }
        }),
{
    if file.in_memory_bytes().is_none() {
        return Err(owned("Read error: the contents were not loaded"));
    }
    match file.extension() {
        Some(ext) => {
            if text_eq(ext.as_str(), "lsf") {
                return Ok(ResourceSource::Lsf);
            }
            if text_eq(ext.as_str(), "lsfx") {
                return Ok(ResourceSource::Lsfx);
            }
        },
        None => {},
    }
    match read_text_content(file) {
        Ok(content) => {
            let trimmed = trim(content.as_str());
            if trimmed.as_str().is_empty() {
                Ok(ResourceSource::Nothing)
            } else {
                Ok(ResourceSource::Text(content))
            }
        },
        Err(e) => Err(e),
    }
}

/// The forms of a stats file.
#[derive(Debug, Clone, Copy, PartialEq, Eq, Structural)]
pub enum StatsForm {
    Entries,
    Equipment,
    ValueLists,
    Modifiers,
    Other,
}

/// The form that the first line which holds something tells.
pub open spec fn form_of_line(t: Seq<char>) -> StatsForm {
    if text::stripped_any_case(t, "new equipment \""@) is Some {
        StatsForm::Equipment
    } else if text::stripped_any_case(t, "valuelist \""@) is Some {
        StatsForm::ValueLists
    } else if text::stripped_any_case(t, "modifier type \""@) is Some {
        StatsForm::Modifiers
    } else if text::stripped_any_case(t, "new entry \""@) is Some {
        StatsForm::Entries
    } else if "key "@.is_prefix_of(t) || "key\t"@.is_prefix_of(t) || ("new "@.is_prefix_of(t)
        && text::has_text(t, "\""@)) {
        StatsForm::Other
    } else {
        StatsForm::Entries
    }
}

/// The form of the lines from the one at `i` on.
pub open spec fn form_from(ls: Seq<Seq<char>>, i: int) -> StatsForm
    decreases ls.len() - i,
{
    if 0 <= i < ls.len() {
        if stats_discovery::idle_line(text::trimmed(ls[i])) {
            form_from(ls, i + 1)
        } else {
            form_of_line(text::trimmed(ls[i]))
        }
    } else {
        StatsForm::Entries
    }
}

fn line_form(t: &str) -> (r: StatsForm)
    ensures
        r == form_of_line(t@),
{
    if strip_prefix_ci(t, "new equipment \"").is_some() {
        StatsForm::Equipment
    } else if strip_prefix_ci(t, "valuelist \"").is_some() {
        StatsForm::ValueLists
    } else if strip_prefix_ci(t, "modifier type \"").is_some() {
        StatsForm::Modifiers
    } else if strip_prefix_ci(t, "new entry \"").is_some() {
        StatsForm::Entries
    } else if starts_with(t, "key ") || starts_with(t, "key\t") || (starts_with(t, "new ")
        && contains(t, "\"")) {
        StatsForm::Other
    } else {
        StatsForm::Entries
    }
}

/// The form of a stats file, by its first line that holds something.
#[verifier::loop_isolation(false)]
pub fn stats_form(content: &str) -> (r: StatsForm)
    ensures
        r == form_from(text::text_lines(content@), 0),
{
    let ls = lines(content);
    let ghost all = ls.deep_view();
    let mut i: usize = 0;
    while i < ls.len()
        invariant
            i <= ls@.len(),
            all == ls.deep_view(),
            form_from(all, i as int) == form_from(all, 0),
        decreases ls@.len() - i,
    {
        assert(all[i as int] == ls@[i as int]@);
        let t = trim(ls[i].as_str());
        if !is_idle(t.as_str()) {
            return line_form(t.as_str());
        }
        i += 1;
    }
    StatsForm::Entries
}

/// The name under which entries in other forms are kept.
pub open spec fn stem_or_unknown(path: Seq<char>) -> Seq<char> {
    if files::file_name(path) is Some {
        files::path_stem(path)
    } else {
        "Unknown"@
    }
}

/// The content of a stats file with the text `content`.
pub open spec fn stats_text_content(
    content: Seq<char>,
    abs_path: Seq<char>,
    schema: SchemaModel,
) -> ContentModel {
    let ls = text::text_lines(content);
    match form_from(ls, 0) {
        StatsForm::Equipment => {
            let entries = stats_lists::equipment_in(ls);
            if textmap::has_key(schema.tables, "stats__equipment"@) && entries.len() > 0 {
                ContentModel::Equipment { entries }
            } else {
                ContentModel::Empty
            }
        },
        StatsForm::ValueLists => {
            let entries = stats_lists::value_scan(ls).rows;
            if textmap::has_key(schema.tables, "valuelist_entries"@) && entries.len() > 0 {
                ContentModel::ValueLists { entries }
            } else {
                ContentModel::Empty
            }
        },
        StatsForm::Modifiers => {
            let entries = stats_lists::modifier_scan(ls).rows;
            if textmap::has_key(schema.tables, "modifier_definitions"@) && entries.len() > 0 {
                ContentModel::Modifiers { entries }
            } else {
                ContentModel::Empty
            }
        },
        StatsForm::Entries => {
            let c = stats_parse::usual_content(content, schema, false);
            ContentModel::Stats {
                entries: c.entries,
                last_type: c.last_type,
                raw_content: c.raw_content,
            }
        },
        StatsForm::Other => {
            let c = stats_parse::odd_content(content, stem_or_unknown(abs_path), schema);
            ContentModel::Stats {
                entries: c.entries,
                last_type: c.last_type,
                raw_content: c.raw_content,
            }
        },
    }
}

/// The content of a stats file.
pub open spec fn stats_file_content(file: FileModel, schema: SchemaModel) -> ContentModel {
    match text_in(file) {
        Some(content) => if text::trimmed(content).len() == 0 {
            ContentModel::Empty
        } else {
            stats_text_content(content, file.abs_path, schema)
        },
        None => ContentModel::Empty,
    }
}

fn as_stats(c: StatsContent) -> (r: ParsedContent)
    ensures
        r.deep_view() == (ContentModel::Stats {
            entries: c.deep_view().entries,
            last_type: c.deep_view().last_type,
            raw_content: c.deep_view().raw_content,
        }),
{
    ParsedContent::Stats {
        entries: c.entries,
        last_type: c.last_type,
        raw_content: c.raw_content,
    }
}

/// The content of an equipment file.
pub fn parse_equipment_content(content: &str, schema: &DiscoveredSchema) -> (r: ParsedContent)
    ensures
        r.deep_view() == ({
            let entries = stats_lists::equipment_in(text::text_lines(content@));
            if textmap::has_key(schema.deep_view().tables, "stats__equipment"@) && entries.len()
                > 0 {
                ContentModel::Equipment { entries }
            } else {
                ContentModel::Empty
            }
        }),
{
    if !schema.tables.contains_key("stats__equipment") {
        return ParsedContent::Empty;
    }
    let entries = equipment_entries(content);
    assert(entries.deep_view().len() == entries@.len());
    if entries.len() == 0 {
        ParsedContent::Empty
    } else {
        ParsedContent::Equipment { entries }
    }
}

/// The content of a file of value lists.
pub fn parse_valuelist_content(content: &str, schema: &DiscoveredSchema) -> (r: ParsedContent)
    ensures
        r.deep_view() == ({
            let entries = stats_lists::value_scan(text::text_lines(content@)).rows;
            if textmap::has_key(schema.deep_view().tables, "valuelist_entries"@) && entries.len()
                > 0 {
                ContentModel::ValueLists { entries }
            } else {
                ContentModel::Empty
            }
        }),
{
    if !schema.tables.contains_key("valuelist_entries") {
        return ParsedContent::Empty;
    }
    let entries = value_list_rows(content);
    assert(entries.deep_view().len() == entries@.len());
    if entries.len() == 0 {
        ParsedContent::Empty
    } else {
        ParsedContent::ValueLists { entries }
    }
}

/// The content of a file of modifiers.
pub fn parse_modifier_content(content: &str, schema: &DiscoveredSchema) -> (r: ParsedContent)
    ensures
        r.deep_view() == ({
            let entries = stats_lists::modifier_scan(text::text_lines(content@)).rows;
            if textmap::has_key(schema.deep_view().tables, "modifier_definitions"@)
                && entries.len() > 0 {
                ContentModel::Modifiers { entries }
            } else {
                ContentModel::Empty
            }
        }),
{
    if !schema.tables.contains_key("modifier_definitions") {
        return ParsedContent::Empty;
    }
    let entries = modifier_rows(content);
    assert(entries.deep_view().len() == entries@.len());
    if entries.len() == 0 {
        ParsedContent::Empty
    } else {
        ParsedContent::Modifiers { entries }
    }
}

/// The content of a stats file.
pub fn parse_stats_file(file: &FileEntry, schema: &DiscoveredSchema) -> (r: ParsedContent)
    ensures
        r.deep_view() == stats_file_content(file.deep_view(), schema.deep_view()),
{
    let content = match read_text_content(file) {
        Ok(c) => c,
        Err(_) => {
            return ParsedContent::Empty;
        },
    };
    let trimmed = trim(content.as_str());
    if trimmed.as_str().is_empty() {
        return ParsedContent::Empty;
    }
    match stats_form(content.as_str()) {
        StatsForm::Equipment => parse_equipment_content(content.as_str(), schema),
        StatsForm::ValueLists => parse_valuelist_content(content.as_str(), schema),
        StatsForm::Modifiers => parse_modifier_content(content.as_str(), schema),
        StatsForm::Entries => as_stats(parse_stats_entries_content(content.as_str(), schema)),
        StatsForm::Other => {
            let stem = if file_name_of(file.abs_path.as_str()).is_some() {
                stem_of(file.abs_path.as_str())
            } else {
                owned("Unknown")
            };
            as_stats(
                parse_nonstandard_stats_content(content.as_str(), stem.as_str(), schema),
            )
        },
    }
}

/// The extension of a file in lower case.
pub open spec fn extension_in(file: FileModel) -> Option<Seq<char>> {
    match files::path_extension(file.rel_path) {
        Some(e) => Some(e),
        None => files::path_extension(file.abs_path),
    }
}

/// The localized texts of a file, where it can be read.
pub open spec fn loca_entries_in(file: FileModel) -> Option<Seq<LocaModel>> {
    if extension_in(file) == Some("loca"@) {
        match file.bytes {
            Some(b) => loca::records(b),
            None => None,
        }
    } else {
        match text_in(file) {
            Some(content) => Some(loca::xml_entries(content)),
            None => None,
        }
    }
}

/// The localized texts of a file: of a binary file if its extension is `loca`,
/// otherwise of an XML file.
pub fn parse_loca_entries(file: &FileEntry) -> (r: Result<Vec<ParsedLocaEntry>, String>)
    ensures
        match r {
            Ok(entries) => loca_entries_in(file.deep_view()) == Some(entries.deep_view()),
            Err(e) => loca_entries_in(file.deep_view()) is None && if extension_in(
                file.deep_view(),
            ) == Some("loca"@) && file.deep_view().bytes is Some {
                e@ == "Invalid LOCA file"@
            } else {
                tells_no_text(file.deep_view(), e@)
            },
        },
{
    let binary = match file.extension() {
        Some(e) => text_eq(e.as_str(), "loca"),
        None => false,
    };
    if binary {
        match file.in_memory_bytes() {
            Some(bytes) => match parse_loca(bytes) {
                Some(entries) => Ok(entries),
                None => Err(owned("Invalid LOCA file")),
            },
            None => Err(owned("Read error: the contents were not loaded")),
        }
    } else {
        match read_text_content(file) {
            Ok(content) => Ok(parse_loca_xml_entries(content.as_str())),
            Err(e) => Err(e),
        }
    }
}

/// The content of a localization file.
pub open spec fn loca_file_content(file: FileModel) -> ContentModel {
    match loca_entries_in(file) {
        Some(entries) => if entries.len() == 0 {
            ContentModel::Empty
        } else {
            ContentModel::Loca { entries }
        },
        None => ContentModel::Empty,
    }
}

/// The content of a localization file.
pub fn parse_loca_file(file: &FileEntry) -> (r: ParsedContent)
    ensures
        r.deep_view() == loca_file_content(file.deep_view()),
{
    match parse_loca_entries(file) {
        Ok(entries) => {
            assert(entries.deep_view().len() == entries@.len());
            if entries.len() == 0 {
                ParsedContent::Empty
            } else {
                ParsedContent::Loca { entries }
            }
        },
        Err(_) => ParsedContent::Empty,
    }
}

/// A file that was read.
#[derive(Debug)]
pub struct ParsedFile {
    pub file_size: u64,
    pub mod_name: String,
    pub content: ParsedContent,
}

/// What a file that was read says.
pub struct ParsedFileModel {
    pub file_size: u64,
    pub mod_name: Seq<char>,
    pub content: ContentModel,
}

impl DeepView for ParsedFile {
    type V = ParsedFileModel;

    open spec fn deep_view(&self) -> ParsedFileModel {
        ParsedFileModel {
            file_size: self.file_size,
            mod_name: self.mod_name@,
            content: self.content.deep_view(),
        }
    }
}

/// The content of a file by its type. Resource files come read.
pub open spec fn file_content(
    file: FileModel,
    resource: Option<LsxResource>,
    schema: SchemaModel,
) -> ContentModel {
    match file.file_type {
        FileType::Lsx => match resource {
            Some(res) => resource_content(res.regions@, schema),
            None => ContentModel::Empty,
        },
        FileType::Stats => stats_file_content(file, schema),
        FileType::Loca => loca_file_content(file),
        FileType::AllSpark => ContentModel::Empty,
        FileType::Effect => ContentModel::Empty,
    }
}

/// Reads a file. For a resource file, `resource` is what it holds.
pub fn parse_file(
    file: &FileEntry,
    resource: &Option<LsxResource>,
    on_disk: Option<u64>,
    schema: &DiscoveredSchema,
) -> (r: ParsedFile)
    ensures
        r.deep_view() == (ParsedFileModel {
            file_size: match file.bytes {
                Some(b) => b@.len() as u64,
                None => match on_disk {
                    Some(n) => n,
                    None => 0,
                },
            },
            mod_name: file.mod_name@,
            content: file_content(file.deep_view(), *resource, schema.deep_view()),
        }),
{
    let content = match file.file_type {
        FileType::Lsx => parse_lsx_file(resource, schema),
        FileType::Stats => parse_stats_file(file, schema),
        FileType::Loca => parse_loca_file(file),
        FileType::AllSpark => ParsedContent::Empty,
        FileType::Effect => ParsedContent::Empty,
    };
    ParsedFile { file_size: file.file_size(on_disk), mod_name: file.mod_name.clone(), content }
}

} // verus!
