//! What holds of the content of files once they are read.

use vstd::prelude::*;
use crate::discovery_laws;
use crate::files;
use crate::models::{LsxNode, LsxRegion, NodeAttributeModel};
use crate::parsed;
use crate::parsed::{NodeModel, StatsForm};
use crate::schema::SchemaModel;
use crate::text;
use crate::textmap;

verus! {

// ---------------------------------------------------------------------------
// Values of nodes
// ---------------------------------------------------------------------------

/// Whether a value is that of an attribute. The value of a localized text only counts
/// where it is not the handle itself.
pub open spec fn is_own_value(
    a: NodeAttributeModel,
    v: (Seq<char>, Seq<char>, Seq<char>),
) -> bool {
    &&& v == (text::ascii_lowered(a.id), a.attr_type, a.value)
    &&& !(a.attr_type == "TranslatedString"@ && a.handle == Some(a.value))
}

/// Whether a value is the handle of an attribute. That of a localized text stands in the
/// column of the attribute itself.
pub open spec fn is_handle(a: NodeAttributeModel, v: (Seq<char>, Seq<char>, Seq<char>)) -> bool {
    let column = text::ascii_lowered(a.id);
    &&& a.handle == Some(v.2)
    &&& a.attr_type == "TranslatedString"@ ==> v.0 == column
    &&& a.attr_type != "TranslatedString"@ ==> v.0 == column + "_handle"@
    &&& a.attr_type.len() == 0 ==> v.1 == "TranslatedString"@
    &&& a.attr_type.len() > 0 ==> v.1 == a.attr_type
}

/// Whether a value is the version of a localized text.
pub open spec fn is_version(a: NodeAttributeModel, v: (Seq<char>, Seq<char>, Seq<char>)) -> bool {
    &&& a.attr_type == "TranslatedString"@
    &&& a.version is Some
    &&& v == (
        text::ascii_lowered(a.id) + "_version"@,
        "int32"@,
        text::decimal(a.version->0 as nat),
    )
}

/// Whether a value is one that an attribute gives: its value, its handle, or the version
/// of a localized text.
pub open spec fn is_value_of(
    a: NodeAttributeModel,
    v: (Seq<char>, Seq<char>, Seq<char>),
) -> bool {
    &&& a.id.len() > 0
    &&& a.id != "_OriginalFileVersion_"@
    &&& is_own_value(a, v) || is_handle(a, v) || is_version(a, v)
}

/// Whether a value is one that some attribute gives.
pub open spec fn is_given(
    attrs: Seq<NodeAttributeModel>,
    v: (Seq<char>, Seq<char>, Seq<char>),
) -> bool {
    exists|i: int| 0 <= i < attrs.len() && is_value_of(#[trigger] attrs[i], v)
}

proof fn lemma_with_values(
    before: Seq<(Seq<char>, Seq<char>, Seq<char>)>,
    a: NodeAttributeModel,
)
    ensures
        ({
            let after = parsed::with_values(before, a);
            &&& before.is_prefix_of(after)
            &&& forall|v: (Seq<char>, Seq<char>, Seq<char>)| #[trigger]
                is_value_of(a, v) ==> after.contains(v)
            &&& forall|k: int| before.len() <= k < after.len() ==> is_value_of(a, #[trigger] after[k])
        }),
{
    let after = parsed::with_values(before, a);
    assert(before =~= after.subrange(0, before.len() as int));
    assert forall|v: (Seq<char>, Seq<char>, Seq<char>)| #[trigger]
        is_value_of(a, v) implies after.contains(v) by {
        let n = before.len() as int;
        let m = after.len() as int;
        if is_own_value(a, v) {
            assert(after[n] == v);
        } else if is_handle(a, v) {
            if a.attr_type == "TranslatedString"@ && a.handle == Some(a.value) {
                assert(after[n] == v);
            } else {
                assert(after[n + 1] == v);
            }
        } else {
            assert(after[m - 1] == v);
        }
    }
}

/// The values of a node are those that its attributes give, and no others.
pub proof fn law_values_are_given(
    attrs: Seq<NodeAttributeModel>,
    v: (Seq<char>, Seq<char>, Seq<char>),
)
    ensures
        parsed::values_of(attrs).contains(v) <==> is_given(attrs, v),
    decreases attrs.len(),
{
    if attrs.len() > 0 {
        let d = attrs.drop_last();
        let before = parsed::values_of(d);
        let after = parsed::values_of(attrs);
        law_values_are_given(d, v);
        lemma_with_values(before, attrs.last());
        assert(attrs[attrs.len() - 1] == attrs.last());
        if is_given(d, v) {
            let i = choose|i: int| 0 <= i < d.len() && is_value_of(#[trigger] d[i], v);
            assert(attrs[i] == d[i]);
            let k = choose|k: int| 0 <= k < before.len() && before[k] == v;
            assert(after.subrange(0, before.len() as int)[k] == after[k]);
        }
        if is_given(attrs, v) {
            let i = choose|i: int| 0 <= i < attrs.len() && is_value_of(#[trigger] attrs[i], v);
            if i < d.len() {
                assert(attrs[i] == d[i]);
                assert(is_given(d, v));
            }
        }
        if after.contains(v) {
            let k = choose|k: int| 0 <= k < after.len() && after[k] == v;
            if k < before.len() {
                assert(after.subrange(0, before.len() as int)[k] == after[k]);
                assert(before[k] == v);
            }
        }
    }
}

// ---------------------------------------------------------------------------
// Trees of nodes
// ---------------------------------------------------------------------------

/// Whether the content made of a node is that of the node and of all nodes below it: it
/// has the values that the attributes give, each as often, and the same children.
pub open spec fn mirrors(
    region_id: Seq<char>,
    node: LsxNode,
    schema: SchemaModel,
    m: NodeModel,
) -> bool
    decreases node,
{
    let first = discovery_laws::first_name(region_id, node.id@);
    let attrs = node.attributes.deep_view();
    &&& textmap::has_key(schema.tables, first) ==> m.table_name == first
    &&& (!textmap::has_key(schema.tables, first) && textmap::has_key(
        schema.tables,
        discovery_laws::now_called(schema.renames, first),
    )) ==> m.table_name == discovery_laws::now_called(schema.renames, first)
    &&& forall|v: (Seq<char>, Seq<char>, Seq<char>)| #[trigger]
        m.attrs.contains(v) <==> is_given(attrs, v)
    &&& m.attrs.len() == parsed::values_of(attrs).len()
    &&& m.has_data <==> m.attrs.len() > 0
    &&& mirror(region_id, node.children@, schema, m.children)
}

/// Whether contents are those of several nodes, one by one.
pub open spec fn mirror(
    region_id: Seq<char>,
    nodes: Seq<LsxNode>,
    schema: SchemaModel,
    ms: Seq<NodeModel>,
) -> bool
    decreases nodes,
{
    if nodes.len() == 0 {
        ms.len() == 0
    } else {
        &&& ms.len() > 0
        &&& mirror(region_id, nodes.drop_last(), schema, ms.drop_last())
        &&& mirrors(region_id, nodes.last(), schema, ms.last())
    }
}

proof fn lemma_same_members<T>(a: Seq<T>, b: Seq<T>, x: T)
    requires
        a.to_multiset() == b.to_multiset(),
    ensures
        a.contains(x) <==> b.contains(x),
        a.len() == b.len(),
{
    broadcast use vstd::seq_lib::group_to_multiset_ensures;

    assert(a.contains(x) <==> a.to_multiset().count(x) > 0);
    assert(b.contains(x) <==> b.to_multiset().count(x) > 0);
    assert(a.len() == a.to_multiset().len());
}

/// A node is read as it stands, with all that lies below it.
pub proof fn law_nodes_are_mirrored(region_id: Seq<char>, node: LsxNode, schema: SchemaModel)
    ensures
        mirrors(region_id, node, schema, parsed::tree_of(region_id, node, schema)),
    decreases node,
{
    let m = parsed::tree_of(region_id, node, schema);
    let attrs = node.attributes.deep_view();
    let values = parsed::values_of(attrs);
    let table = parsed::table_of_node(region_id, node.id@, schema);
    if textmap::value_of(schema.tables, table) is Some {
        parsed::law_key_first(values, textmap::value_of(schema.tables, table)->0);
    }
    assert(m.attrs.to_multiset() == values.to_multiset());
    assert forall|v: (Seq<char>, Seq<char>, Seq<char>)| #[trigger]
        m.attrs.contains(v) <==> is_given(attrs, v) by {
        lemma_same_members(m.attrs, values, v);
        law_values_are_given(attrs, v);
    }
    lemma_same_members(m.attrs, values, values[0]);
    law_trees_are_mirrored(region_id, node.children@, schema);
}

/// Nodes are read in their order.
pub proof fn law_trees_are_mirrored(
    region_id: Seq<char>,
    nodes: Seq<LsxNode>,
    schema: SchemaModel,
)
    ensures
        mirror(region_id, nodes, schema, parsed::trees_of(region_id, nodes, schema)),
    decreases nodes,
{
    if nodes.len() > 0 {
        law_trees_are_mirrored(region_id, nodes.drop_last(), schema);
        law_nodes_are_mirrored(region_id, nodes.last(), schema);
        let ms = parsed::trees_of(region_id, nodes, schema);
        assert(ms.drop_last() =~= parsed::trees_of(region_id, nodes.drop_last(), schema));
    }
}

/// The regions of a resource are read one after another: a skipped one adds nothing, any
/// other one adds its nodes and is the last that counts.
pub proof fn law_regions_are_read_in_order(
    regions: Seq<LsxRegion>,
    region: LsxRegion,
    schema: SchemaModel,
)
    ensures
        ({
            let before = parsed::roots_of(regions, schema);
            let after = parsed::roots_of(regions.push(region), schema);
            let n = before.1.len() as int;
            &&& files::is_skipped_region(region.id@) ==> after == before
            &&& !files::is_skipped_region(region.id@) ==> {
                &&& after.0 == Some(region.id@)
                &&& n <= after.1.len()
                &&& after.1.take(n) == before.1
                &&& mirror(region.id@, region.nodes@, schema, after.1.skip(n))
            }
        }),
{
    let before = parsed::roots_of(regions, schema);
    let after = parsed::roots_of(regions.push(region), schema);
    assert(regions.push(region).drop_last() =~= regions);
    if !files::is_skipped_region(region.id@) {
        law_trees_are_mirrored(region.id@, region.nodes@, schema);
        assert(after.1.take(before.1.len() as int) =~= before.1);
        assert(after.1.skip(before.1.len() as int) =~= parsed::trees_of(
            region.id@,
            region.nodes@,
            schema,
        ));
    }
}

// ---------------------------------------------------------------------------
// Forms of stats files
// ---------------------------------------------------------------------------

/// Whether a line holds nothing but white space or a comment.
pub open spec fn says_nothing(line: Seq<char>) -> bool {
    text::trimmed(line).len() == 0 || "//"@.is_prefix_of(text::trimmed(line))
}

/// Whether a line begins with words, in any case of their letters.
pub open spec fn begins(line: Seq<char>, words: Seq<char>) -> bool {
    let t = text::trimmed(line);
    t.len() >= words.len() && text::ascii_lowered(t.take(words.len() as int)) == words
}

proof fn lemma_begins(line: Seq<char>, words: Seq<char>)
    requires
        forall|i: int| 0 <= i < words.len() ==> !('A' <= #[trigger] words[i] <= 'Z'),
    ensures
        begins(line, words) <==> text::stripped_any_case(text::trimmed(line), words) is Some,
{
    assert(text::ascii_lowered(words) =~= words);
}

proof fn lemma_form_from(ls: Seq<Seq<char>>, i: int, k: int)
    requires
        0 <= i <= k < ls.len(),
        forall|j: int| i <= j < k ==> says_nothing(#[trigger] ls[j]),
        !says_nothing(ls[k]),
    ensures
        parsed::form_from(ls, i) == parsed::form_of_line(text::trimmed(ls[k])),
    decreases k - i,
{
    if i < k {
        assert(says_nothing(ls[i]));
        lemma_form_from(ls, i + 1, k);
    }
}

/// The first line of a stats file that says something tells its form.
pub proof fn law_first_line_tells_form(ls: Seq<Seq<char>>, k: int)
    requires
        0 <= k < ls.len(),
        forall|j: int| 0 <= j < k ==> says_nothing(#[trigger] ls[j]),
        !says_nothing(ls[k]),
    ensures
        ({
            let form = parsed::form_from(ls, 0);
            let t = text::trimmed(ls[k]);
            &&& form == StatsForm::Equipment <==> begins(ls[k], "new equipment \""@)
            &&& form == StatsForm::ValueLists <==> begins(ls[k], "valuelist \""@)
            &&& form == StatsForm::Modifiers <==> begins(ls[k], "modifier type \""@)
            &&& begins(ls[k], "new entry \""@) ==> form == StatsForm::Entries
            &&& "key "@.is_prefix_of(t) || "key\t"@.is_prefix_of(t) ==> form == StatsForm::Other
            &&& form == StatsForm::Other ==> !begins(ls[k], "new entry \""@) && ("key "@.is_prefix_of(
                t,
            ) || "key\t"@.is_prefix_of(t) || "new "@.is_prefix_of(t))
        }),
{
    lemma_form_from(ls, 0, k);
    let line = ls[k];
    let t = text::trimmed(line);
    reveal_strlit("new equipment \"");
    reveal_strlit("valuelist \"");
    reveal_strlit("modifier type \"");
    reveal_strlit("new entry \"");
    reveal_strlit("key ");
    reveal_strlit("key\t");
    let a = "new equipment \""@;
    let b = "valuelist \""@;
    let c = "modifier type \""@;
    let e = "new entry \""@;
    lemma_begins(line, a);
    lemma_begins(line, b);
    lemma_begins(line, c);
    lemma_begins(line, e);
    assert(a[0] == 'n' && b[0] == 'v' && c[0] == 'm' && e[0] == 'n');
    assert(a[5] == 'q' && e[5] == 'n');
    if begins(line, a) {
        assert(text::ascii_lowered(t.take(15))[0] == text::ascii_lower(t[0]));
        assert(text::ascii_lowered(t.take(15))[5] == text::ascii_lower(t[5]));
    }
    if begins(line, b) {
        assert(text::ascii_lowered(t.take(11))[0] == text::ascii_lower(t[0]));
    }
    if begins(line, c) {
        assert(text::ascii_lowered(t.take(15))[0] == text::ascii_lower(t[0]));
    }
    if begins(line, e) {
        assert(text::ascii_lowered(t.take(11))[0] == text::ascii_lower(t[0]));
        assert(text::ascii_lowered(t.take(11))[5] == text::ascii_lower(t[5]));
    }
    assert("key "@[0] == 'k' && "key\t"@[0] == 'k');
    if "key "@.is_prefix_of(t) {
        assert(t.subrange(0, 4)[0] == t[0]);
    }
    if "key\t"@.is_prefix_of(t) {
        assert(t.subrange(0, 4)[0] == t[0]);
    }
}

/// Lines that all say nothing have the form of entries.
pub proof fn law_empty_lines_have_no_form(ls: Seq<Seq<char>>, i: int)
    requires
        0 <= i <= ls.len(),
        forall|j: int| i <= j < ls.len() ==> says_nothing(#[trigger] ls[j]),
    ensures
        parsed::form_from(ls, i) == StatsForm::Entries,
    decreases ls.len() - i,
{
    if i < ls.len() {
        assert(says_nothing(ls[i]));
        law_empty_lines_have_no_form(ls, i + 1);
    }
}

} // verus!
