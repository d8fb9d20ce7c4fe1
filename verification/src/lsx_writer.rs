//! Entries as LSX text.

use vstd::prelude::*;
use vstd::string::*;
use crate::models::{LsxAttribute, LsxChildEntry, LsxChildGroup, LsxEntry};
use crate::models::{AttributeModel, ChildModel, EntryModel, GroupModel};
use crate::order;
use crate::order::{sort_ranked, text_before, Ranked};
use crate::text;
use crate::text::{chars_of, owned, padding, parse_i64, text_eq, text_of};
use crate::textmap;
use crate::textmap::TextMap;

verus! {

/// A character as it stands in an attribute value.
pub open spec fn escaped_char(c: char) -> Seq<char> {
    if c == '&' {
        "&amp;"@
    } else if c == '<' {
        "&lt;"@
    } else if c == '>' {
        "&gt;"@
    } else if c == '"' {
        "&quot;"@
    } else {
        seq![c]
    }
}

/// The writer of single characters.
pub open spec fn char_writer() -> spec_fn(char) -> Seq<char> {
    |c: char| escaped_char(c)
}

/// A text as it stands in an attribute value.
pub open spec fn escaped(s: Seq<char>) -> Seq<char> {
    text::concat_of(s, char_writer())
}

/// Escapes the characters that XML gives a meaning in attribute values.
#[verifier::loop_isolation(false)]
pub fn xml_escape(s: &str) -> (r: String)
    ensures
        r@ == escaped(s@),
{
    let v = chars_of(s);
    let mut r = String::new();
    let mut i: usize = 0;
    while i < v.len()
        invariant
            i <= v@.len(),
            r@ == escaped(s@.take(i as int)),
        decreases v@.len() - i,
    {
        let c = v[i];
        let ghost before = r@;
        match c {
            '&' => r.append("&amp;"),
            '<' => r.append("&lt;"),
            '>' => r.append("&gt;"),
            '"' => r.append("&quot;"),
            _ => r.push(c),
        }
        assert(r@ =~= before + escaped_char(c));
        proof {
            text::lemma_concat_step(s@, char_writer(), i as int);
        }
        i += 1;
    }
    assert(s@.take(i as int) =~= s@);
    r
}

/// Whether a character ends an attribute value or a tag.
pub open spec fn is_markup(c: char) -> bool {
    c == '<' || c == '>' || c == '"'
}

/// No escaped text holds a character that would end an attribute value or a tag.
pub proof fn law_escaped_is_plain(s: Seq<char>)
    ensures
        forall|i: int| 0 <= i < escaped(s).len() ==> !is_markup(#[trigger] escaped(s)[i]),
    decreases s.len(),
{
    if s.len() > 0 {
        law_escaped_is_plain(s.drop_last());
        let before = escaped(s.drop_last());
        let last = escaped_char(s.last());
        reveal_strlit("&amp;");
        reveal_strlit("&lt;");
        reveal_strlit("&gt;");
        reveal_strlit("&quot;");
        assert(forall|i: int| 0 <= i < last.len() ==> !is_markup(#[trigger] last[i]));
        assert(escaped(s) == before + last);
        assert forall|i: int| 0 <= i < escaped(s).len() implies !is_markup(
            #[trigger] escaped(s)[i],
        ) by {
            if i < before.len() {
                assert(escaped(s)[i] == before[i]);
            } else {
                assert(escaped(s)[i] == last[i - before.len()]);
            }
        }
    }
}

/// The order of attributes in an entry: the key attributes come first, then
/// all go by name.
pub open spec fn key_name(name: Seq<char>) -> bool {
    name == "UUID"@ || name == "MapKey"@
}

/// Whether the attribute named `a` stands before the one named `b`.
pub open spec fn name_before(a: Seq<char>, b: Seq<char>) -> bool {
    if key_name(a) != key_name(b) {
        key_name(a)
    } else {
        order::text_lt(a, b)
    }
}

/// Whether a name is that of a key attribute.
pub fn is_key_name(name: &str) -> (r: bool)
    ensures
        r == key_name(name@),
{
    text_eq(name, "UUID") || text_eq(name, "MapKey")
}

impl Ranked for (String, LsxAttribute) {
    open spec fn ranks_before(a: (Seq<char>, AttributeModel), b: (Seq<char>, AttributeModel)) -> bool {
        name_before(a.0, b.0)
    }

    fn goes_before(&self, other: &Self) -> (r: bool) {
        let a = is_key_name(self.0.as_str());
        let b = is_key_name(other.0.as_str());
        if a != b {
            a
        } else {
            text_before(self.0.as_str(), other.0.as_str())
        }
    }
}

/// Whether an attribute of this type carries a localization handle.
pub open spec fn translated(attr_type: Seq<char>) -> bool {
    attr_type == "TranslatedString"@ || attr_type == "TranslatedFSString"@
}

/// The `<attribute>` element.
pub open spec fn attribute_xml(id: Seq<char>, a: AttributeModel, indent: nat) -> Seq<char> {
    text::spaces(indent) + "<attribute id=\""@ + escaped(id) + "\" type=\""@ + escaped(a.attr_type)
        + (if translated(a.attr_type) {
        "\" handle=\""@
    } else {
        "\" value=\""@
    }) + escaped(a.value) + "\" />\n"@
}

/// Writes an `<attribute>` element.
pub fn write_attribute(out: &mut String, id: &str, attr: &LsxAttribute, indent: usize)
    ensures
        final(out)@ == old(out)@ + attribute_xml(id@, attr.deep_view(), indent as nat),
{
    let ghost start = out@;
    let pad = padding(indent);
    out.append(pad.as_str());
    out.append("<attribute id=\"");
    let e = xml_escape(id);
    out.append(e.as_str());
    out.append("\" type=\"");
    let e = xml_escape(attr.attr_type.as_str());
    out.append(e.as_str());
    if text_eq(attr.attr_type.as_str(), "TranslatedString") || text_eq(
        attr.attr_type.as_str(),
        "TranslatedFSString",
    ) {
        out.append("\" handle=\"");
    } else {
        out.append("\" value=\"");
    }
    let e = xml_escape(attr.value.as_str());
    out.append(e.as_str());
    out.append("\" />\n");
    assert(out@ =~= start + attribute_xml(id@, attr.deep_view(), indent as nat));
}

/// The element of a child node.
pub open spec fn child_xml(c: ChildModel, indent: nat) -> Seq<char> {
    if c.object_guid.len() == 0 {
        text::spaces(indent) + "<node id=\""@ + escaped(c.node_id) + "\" />\n"@
    } else {
        text::spaces(indent) + "<node id=\""@ + escaped(c.node_id) + "\">\n"@ + text::spaces(
            indent + 2,
        ) + "<attribute id=\"Object\" type=\"guid\" value=\""@ + escaped(c.object_guid)
            + "\" />\n"@ + text::spaces(indent) + "</node>\n"@
    }
}

/// Writes a child node.
pub fn write_child_entry(out: &mut String, child: &LsxChildEntry, indent: usize)
    requires
        indent + 2 <= usize::MAX,
    ensures
        final(out)@ == old(out)@ + child_xml(child.deep_view(), indent as nat),
{
    let ghost start = out@;
    let pad = padding(indent);
    let id = xml_escape(child.node_id.as_str());
    out.append(pad.as_str());
    out.append("<node id=\"");
    out.append(id.as_str());
    if child.object_guid.as_str().is_empty() {
        out.append("\" />\n");
    } else {
        out.append("\">\n");
        let attr_pad = padding(indent + 2);
        out.append(attr_pad.as_str());
        out.append("<attribute id=\"Object\" type=\"guid\" value=\"");
        let guid = xml_escape(child.object_guid.as_str());
        out.append(guid.as_str());
        out.append("\" />\n");
        out.append(pad.as_str());
        out.append("</node>\n");
    }
    assert(out@ =~= start + child_xml(child.deep_view(), indent as nat));
}

/// Whether a group gets a node of its own around its entries: one of them has
/// another node id than the group.
pub open spec fn is_container(g: GroupModel) -> bool {
    exists|i: int| 0 <= i < g.entries.len() && (#[trigger] g.entries[i]).node_id != g.group_id
}

/// The writer of child nodes.
pub open spec fn child_writer(indent: nat) -> spec_fn(ChildModel) -> Seq<char> {
    |c: ChildModel| child_xml(c, indent)
}

/// The elements of a child group.
pub open spec fn group_xml(g: GroupModel, indent: nat) -> Seq<char> {
    if is_container(g) {
        text::spaces(indent + 2) + "<node id=\""@ + escaped(g.group_id) + "\">\n"@ + text::spaces(
            indent + 4,
        ) + "<children>\n"@ + text::concat_of(g.entries, child_writer(indent + 6)) + text::spaces(
            indent + 4,
        ) + "</children>\n"@ + text::spaces(indent + 2) + "</node>\n"@
    } else {
        text::concat_of(g.entries, child_writer(indent + 2))
    }
}

/// The writer of child groups.
pub open spec fn group_writer(indent: nat) -> spec_fn(GroupModel) -> Seq<char> {
    |g: GroupModel| group_xml(g, indent)
}

/// The `<children>` element.
pub open spec fn children_xml(groups: Seq<GroupModel>, indent: nat) -> Seq<char> {
    text::spaces(indent) + "<children>\n"@ + text::concat_of(groups, group_writer(indent))
        + text::spaces(indent) + "</children>\n"@
}

#[verifier::loop_isolation(false)]
fn write_entries_of(out: &mut String, entries: &Vec<LsxChildEntry>, indent: usize)
    requires
        indent + 2 <= usize::MAX,
    ensures
        final(out)@ == old(out)@ + text::concat_of(
            entries.deep_view(),
            child_writer(indent as nat),
        ),
{
    let ghost start = out@;
    let ghost all = entries.deep_view();
    let mut i: usize = 0;
    assert(out@ =~= start + text::concat_of(all.take(0), child_writer(indent as nat)));
    while i < entries.len()
        invariant
            i <= entries@.len(),
            out@ == start + text::concat_of(all.take(i as int), child_writer(indent as nat)),
        decreases entries@.len() - i,
    {
        write_child_entry(out, &entries[i], indent);
        proof {
            text::lemma_concat_step(all, child_writer(indent as nat), i as int);
        }
        i += 1;
        assert(out@ =~= start + text::concat_of(all.take(i as int), child_writer(indent as nat)));
    }
    assert(all.take(i as int) =~= all);
}

#[verifier::loop_isolation(false)]
fn wraps_entries(group: &LsxChildGroup) -> (r: bool)
    ensures
        r == is_container(group.deep_view()),
{
    let ghost g = group.deep_view();
    let mut i: usize = 0;
    while i < group.entries.len()
        invariant
            i <= group.entries@.len(),
            forall|k: int| 0 <= k < i ==> (#[trigger] g.entries[k]).node_id == g.group_id,
        decreases group.entries@.len() - i,
    {
        assert(g.entries[i as int].node_id == group.entries@[i as int].node_id@);
        if !text_eq(group.entries[i].node_id.as_str(), group.group_id.as_str()) {
            return true;
        }
        i += 1;
    }
    false
}

/// Writes the elements of one child group.
fn write_group(out: &mut String, group: &LsxChildGroup, indent: usize)
    requires
        indent + 8 <= usize::MAX,
    ensures
        final(out)@ == old(out)@ + group_xml(group.deep_view(), indent as nat),
{
    let ghost before = out@;
    if wraps_entries(group) {
        let inner_pad = padding(indent + 2);
        let child_pad = padding(indent + 4);
        let id = xml_escape(group.group_id.as_str());
        out.append(inner_pad.as_str());
        out.append("<node id=\"");
        out.append(id.as_str());
        out.append("\">\n");
        out.append(child_pad.as_str());
        out.append("<children>\n");
        write_entries_of(out, &group.entries, indent + 6);
        out.append(child_pad.as_str());
        out.append("</children>\n");
        out.append(inner_pad.as_str());
        out.append("</node>\n");
        assert(out@ =~= before + group_xml(group.deep_view(), indent as nat));
    } else {
        write_entries_of(out, &group.entries, indent + 2);
    }
}

/// Writes the `<children>` element for all child groups.
#[verifier::loop_isolation(false)]
pub fn write_children(out: &mut String, groups: &Vec<LsxChildGroup>, indent: usize)
    requires
        indent + 8 <= usize::MAX,
    ensures
        final(out)@ == old(out)@ + children_xml(groups.deep_view(), indent as nat),
{
    let ghost start = out@;
    let ghost all = groups.deep_view();
    let pad = padding(indent);
    out.append(pad.as_str());
    out.append("<children>\n");
    let ghost head = out@;
    let mut i: usize = 0;
    assert(out@ =~= head + text::concat_of(all.take(0), group_writer(indent as nat)));
    while i < groups.len()
        invariant
            i <= groups@.len(),
            out@ == head + text::concat_of(all.take(i as int), group_writer(indent as nat)),
        decreases groups@.len() - i,
    {
        write_group(out, &groups[i], indent);
        proof {
            text::lemma_concat_step(all, group_writer(indent as nat), i as int);
        }
        i += 1;
        assert(out@ =~= head + text::concat_of(all.take(i as int), group_writer(indent as nat)));
    }
    assert(all.take(i as int) =~= all);
    out.append(pad.as_str());
    out.append("</children>\n");
    assert(out@ =~= start + children_xml(all, indent as nat));
}

/// The writer of attributes.
pub open spec fn attribute_writer(indent: nat) -> spec_fn((Seq<char>, AttributeModel)) -> Seq<char> {
    |p: (Seq<char>, AttributeModel)| attribute_xml(p.0, p.1, indent)
}

/// The attributes of an entry in the order in which they are written.
pub open spec fn written_order(attributes: Seq<(Seq<char>, AttributeModel)>) -> Seq<
    (Seq<char>, AttributeModel),
> {
    order::stable_sort(attributes, order::rank::<(String, LsxAttribute)>())
}

/// The `<node>` element of an entry.
pub open spec fn entry_xml(e: EntryModel, indent: nat) -> Seq<char> {
    text::spaces(indent) + "<node id=\""@ + escaped(e.node_id) + "\">\n"@ + text::concat_of(
        written_order(e.attributes),
        attribute_writer(indent + 2),
    ) + (if e.children.len() > 0 {
        children_xml(e.children, indent + 2)
    } else {
        Seq::empty()
    }) + text::spaces(indent) + "</node>\n"@
}

#[verifier::loop_isolation(false)]
fn copy_attributes(m: &TextMap<LsxAttribute>) -> (r: Vec<(String, LsxAttribute)>)
    ensures
        r.deep_view() == m.deep_view(),
{
    let mut r: Vec<(String, LsxAttribute)> = Vec::new();
    let mut i: usize = 0;
    while i < m.entries.len()
        invariant
            i <= m.entries@.len(),
            r.deep_view() == m.deep_view().take(i as int),
        decreases m.entries@.len() - i,
    {
        r.push((m.entries[i].0.clone(), m.entries[i].1.clone()));
        i += 1;
        assert(r.deep_view() =~= m.deep_view().take(i as int));
    }
    assert(m.deep_view().take(i as int) =~= m.deep_view());
    r
}

/// Writes an entry at the given indentation.
#[verifier::loop_isolation(false)]
pub fn write_entry(out: &mut String, entry: &LsxEntry, indent: usize)
    requires
        indent + 10 <= usize::MAX,
    ensures
        final(out)@ == old(out)@ + entry_xml(entry.deep_view(), indent as nat),
{
    let ghost start = out@;
    let ghost e = entry.deep_view();
    let pad = padding(indent);
    out.append(pad.as_str());
    out.append("<node id=\"");
    let id = xml_escape(entry.node_id.as_str());
    out.append(id.as_str());
    out.append("\">\n");
    let ghost head = out@;
    let attrs = sort_ranked(copy_attributes(&entry.attributes));
    let ghost all = attrs.deep_view();
    let mut i: usize = 0;
    assert(out@ =~= head + text::concat_of(all.take(0), attribute_writer(indent as nat + 2)));
    while i < attrs.len()
        invariant
            i <= attrs@.len(),
            out@ == head + text::concat_of(all.take(i as int), attribute_writer(indent as nat + 2)),
        decreases attrs@.len() - i,
    {
        assert(all[i as int] == (attrs@[i as int].0@, attrs@[i as int].1.deep_view()));
        write_attribute(out, attrs[i].0.as_str(), &attrs[i].1, indent + 2);
        proof {
            text::lemma_concat_step(all, attribute_writer(indent as nat + 2), i as int);
        }
        i += 1;
        assert(out@ =~= head + text::concat_of(
            all.take(i as int),
            attribute_writer(indent as nat + 2),
        ));
    }
    assert(all.take(i as int) =~= all);
    if entry.children.len() > 0 {
        write_children(out, &entry.children, indent + 2);
    }
    out.append(pad.as_str());
    out.append("</node>\n");
    assert(out@ =~= start + entry_xml(e, indent as nat));
}

/// An entry inside an XML comment.
pub open spec fn commented_xml(e: EntryModel, indent: nat) -> Seq<char> {
    text::spaces(indent) + "<!--\n"@ + entry_xml(e, indent + 2) + text::spaces(indent) + "-->\n"@
}

/// Writes an entry inside an XML comment.
pub fn write_commented_entry(out: &mut String, entry: &LsxEntry, indent: usize)
    requires
        indent + 12 <= usize::MAX,
    ensures
        final(out)@ == old(out)@ + commented_xml(entry.deep_view(), indent as nat),
{
    let ghost start = out@;
    let pad = padding(indent);
    out.append(pad.as_str());
    out.append("<!--\n");
    write_entry(out, entry, indent + 2);
    out.append(pad.as_str());
    out.append("-->\n");
    assert(out@ =~= start + commented_xml(entry.deep_view(), indent as nat));
}

/// The writer of top-level entries.
pub open spec fn entry_writer() -> spec_fn(EntryModel) -> Seq<char> {
    |e: EntryModel|
        if e.commented {
            commented_xml(e, 8)
        } else {
            entry_xml(e, 8)
        }
}

/// A complete LSX file.
pub open spec fn lsx_file(entries: Seq<EntryModel>, region_id: Seq<char>) -> Seq<char> {
    "<?xml version=\"1.0\" encoding=\"utf-8\"?>\n"@ + "<save>\n"@
        + "  <version major=\"4\" minor=\"0\" revision=\"0\" build=\"49\" />\n"@
        + "  <region id=\""@ + escaped(region_id) + "\">\n"@ + "    <node id=\"root\">\n"@
        + "      <children>\n"@ + text::concat_of(entries, entry_writer())
        + "      </children>\n"@ + "    </node>\n"@ + "  </region>\n"@ + "</save>\n"@
}

/// A complete LSX file with the given entries below the root node.
#[verifier::loop_isolation(false)]
pub fn entries_to_lsx(entries: &Vec<LsxEntry>, region_id: &str) -> (r: String)
    ensures
        r@ == lsx_file(entries.deep_view(), region_id@),
{
    let ghost all = entries.deep_view();
    let mut out = String::new();
    out.append("<?xml version=\"1.0\" encoding=\"utf-8\"?>\n");
    out.append("<save>\n");
    out.append("  <version major=\"4\" minor=\"0\" revision=\"0\" build=\"49\" />\n");
    out.append("  <region id=\"");
    let id = xml_escape(region_id);
    out.append(id.as_str());
    out.append("\">\n");
    out.append("    <node id=\"root\">\n");
    out.append("      <children>\n");
    let ghost head = out@;
    let mut i: usize = 0;
    assert(out@ =~= head + text::concat_of(all.take(0), entry_writer()));
    while i < entries.len()
        invariant
            i <= entries@.len(),
            out@ == head + text::concat_of(all.take(i as int), entry_writer()),
        decreases entries@.len() - i,
    {
        if entries[i].commented {
            write_commented_entry(&mut out, &entries[i], 8);
        } else {
            write_entry(&mut out, &entries[i], 8);
        }
        proof {
            text::lemma_concat_step(all, entry_writer(), i as int);
        }
        i += 1;
        assert(out@ =~= head + text::concat_of(all.take(i as int), entry_writer()));
    }
    assert(all.take(i as int) =~= all);
    out.append("      </children>\n");
    out.append("    </node>\n");
    out.append("  </region>\n");
    out.append("</save>\n");
    assert(out@ =~= lsx_file(all, region_id@));
    out
}

proof fn lemma_names_order()
    ensures
        order::orders(order::rank::<(String, LsxAttribute)>()),
{
    let before = order::rank::<(String, LsxAttribute)>();
    assert forall|a: (Seq<char>, AttributeModel), b: (Seq<char>, AttributeModel)| #[trigger]
        before(a, b) implies !before(b, a) by {
        if before(b, a) {
            order::lemma_text_lt_transitive(a.0, b.0, a.0);
            order::lemma_text_lt_irreflexive(a.0);
        }
    }
    assert forall|
        a: (Seq<char>, AttributeModel),
        b: (Seq<char>, AttributeModel),
        c: (Seq<char>, AttributeModel),
    |
        #![trigger before(a, c), before(a, b)]
        #![trigger before(a, c), before(b, c)]
        before(a, c) implies before(a, b) || before(b, c) by {
        order::lemma_text_lt_total(a.0, b.0);
        if key_name(a.0) == key_name(c.0) && order::text_lt(b.0, a.0) {
            order::lemma_text_lt_transitive(b.0, a.0, c.0);
        }
    }
}

proof fn lemma_names_differ(attributes: Seq<(Seq<char>, AttributeModel)>)
    requires
        textmap::distinct(attributes),
    ensures
        ({
            let w = written_order(attributes);
            &&& textmap::distinct(w)
            &&& order::in_order(w, order::rank::<(String, LsxAttribute)>())
            &&& order::all_differ(w, order::rank::<(String, LsxAttribute)>())
            &&& w.to_multiset() == attributes.to_multiset()
            &&& w.len() == attributes.len()
        }),
{
    broadcast use vstd::seq_lib::group_to_multiset_ensures;

    let before = order::rank::<(String, LsxAttribute)>();
    let w = written_order(attributes);
    lemma_names_order();
    order::law_sort_orders(attributes, before);
    order::lemma_sorted_from(attributes, before);
    assert forall|i: int, j: int| 0 <= i < j < w.len() implies #[trigger] w[i].0
        != #[trigger] w[j].0 by {
        if w[i].0 == w[j].0 {
            assert(attributes.contains(w[i]));
            assert(attributes.contains(w[j]));
            let a = choose|a: int| 0 <= a < attributes.len() && attributes[a] == w[i];
            let b = choose|b: int| 0 <= b < attributes.len() && attributes[b] == w[j];
            if a != b {
                assert(attributes[a].0 == attributes[b].0);
                assert(false);
            }
            lemma_counts_twice(w, i, j);
            lemma_counts_once(attributes, a);
            assert(false);
        }
    }
    assert forall|i: int, j: int| 0 <= i < j < w.len() implies before(
        #[trigger] w[i],
        #[trigger] w[j],
    ) || before(w[j], w[i]) by {
        assert(w[i].0 != w[j].0);
        order::lemma_text_lt_total(w[i].0, w[j].0);
    }
}

proof fn lemma_counts_twice(s: Seq<(Seq<char>, AttributeModel)>, i: int, j: int)
    requires
        0 <= i < j < s.len(),
        s[i] == s[j],
    ensures
        s.to_multiset().count(s[i]) >= 2,
{
    broadcast use vstd::seq_lib::group_to_multiset_ensures;

    let r = s.remove(j);
    assert(r.insert(j, s[j]) =~= s);
    assert(r[i] == s[i]);
    assert(r.contains(s[i]));
    assert(r.to_multiset().count(s[i]) >= 1);
    assert(s.to_multiset() =~= r.to_multiset().insert(s[j]));
}

proof fn lemma_counts_once(s: Seq<(Seq<char>, AttributeModel)>, i: int)
    requires
        0 <= i < s.len(),
        textmap::distinct(s),
    ensures
        s.to_multiset().count(s[i]) == 1,
{
    broadcast use vstd::seq_lib::group_to_multiset_ensures;

    let r = s.remove(i);
    assert(r.insert(i, s[i]) =~= s);
    assert(s.to_multiset() =~= r.to_multiset().insert(s[i]));
    if r.contains(s[i]) {
        let k = choose|k: int| 0 <= k < r.len() && r[k] == s[i];
        if k < i {
            assert(s[k].0 == s[i].0);
        } else {
            assert(s[i].0 == s[k + 1].0);
        }
    }
    assert(!r.contains(s[i]));
}

/// Each attribute of an entry is written once, in an order that its name alone
/// decides: the key attributes first, `MapKey` before `UUID`, and the others
/// ascending by name.
pub proof fn law_attributes_written_in_order(attributes: Seq<(Seq<char>, AttributeModel)>)
    requires
        textmap::distinct(attributes),
    ensures
        ({
            let w = written_order(attributes);
            &&& w.to_multiset() == attributes.to_multiset()
            &&& forall|i: int, j: int|
                0 <= i < j < w.len() ==> name_before(#[trigger] w[i].0, #[trigger] w[j].0)
        }),
        name_before("MapKey"@, "UUID"@),
{
    let before = order::rank::<(String, LsxAttribute)>();
    let w = written_order(attributes);
    lemma_names_differ(attributes);
    assert forall|i: int, j: int| 0 <= i < j < w.len() implies name_before(
        #[trigger] w[i].0,
        #[trigger] w[j].0,
    ) by {
        assert(!before(w[j], w[i]));
        assert(before(w[i], w[j]) || before(w[j], w[i]));
    }
    reveal_strlit("MapKey");
    reveal_strlit("UUID");
    assert("MapKey"@[0] < "UUID"@[0]);
}

/// Whether two entries differ at most in the order of their attributes, of which
/// none stands twice.
pub open spec fn same_but_order(a: EntryModel, b: EntryModel) -> bool {
    &&& textmap::distinct(a.attributes)
    &&& textmap::distinct(b.attributes)
    &&& a.attributes.to_multiset() == b.attributes.to_multiset()
    &&& b == EntryModel { attributes: b.attributes, ..a }
}

/// The text of an entry does not depend on the order in which its attributes were
/// set.
pub proof fn law_entry_ignores_order(a: EntryModel, b: EntryModel, indent: nat)
    requires
        same_but_order(a, b),
    ensures
        entry_xml(a, indent) == entry_xml(b, indent),
        commented_xml(a, indent) == commented_xml(b, indent),
{
    lemma_names_differ(a.attributes);
    lemma_names_differ(b.attributes);
    lemma_names_order();
    order::lemma_order_unique(
        written_order(a.attributes),
        written_order(b.attributes),
        order::rank::<(String, LsxAttribute)>(),
    );
}

proof fn lemma_entries_ignore_order(a: Seq<EntryModel>, b: Seq<EntryModel>)
    requires
        a.len() == b.len(),
        forall|i: int| 0 <= i < a.len() ==> same_but_order(#[trigger] a[i], b[i]),
    ensures
        text::concat_of(a, entry_writer()) == text::concat_of(b, entry_writer()),
    decreases a.len(),
{
    if a.len() > 0 {
        let c = a.drop_last();
        let d = b.drop_last();
        assert forall|i: int| 0 <= i < c.len() implies same_but_order(#[trigger] c[i], d[i]) by {
            assert(same_but_order(a[i], b[i]));
        }
        lemma_entries_ignore_order(c, d);
        let n = a.len() - 1;
        assert(same_but_order(a[n], b[n]));
        law_entry_ignores_order(a[n], b[n], 8);
    }
}

/// The text of a file does not depend on the order in which the attributes of its
/// entries were set.
pub proof fn law_file_ignores_order(a: Seq<EntryModel>, b: Seq<EntryModel>, region_id: Seq<char>)
    requires
        a.len() == b.len(),
        forall|i: int| 0 <= i < a.len() ==> same_but_order(#[trigger] a[i], b[i]),
    ensures
        lsx_file(a, region_id) == lsx_file(b, region_id),
{
    lemma_entries_ignore_order(a, b);
}

/// Whether every `>` of a text stands behind a character of the text that is no
/// dash.
pub open spec fn closes_tags(s: Seq<char>) -> bool {
    forall|i: int| 0 <= i < s.len() && #[trigger] s[i] == '>' ==> i > 0 && s[i - 1] != '-'
}

proof fn lemma_closes_both(a: Seq<char>, b: Seq<char>)
    requires
        closes_tags(a),
        closes_tags(b),
    ensures
        closes_tags(a + b),
{
    let s = a + b;
    assert forall|i: int| 0 <= i < s.len() && #[trigger] s[i] == '>' implies i > 0 && s[i - 1]
        != '-' by {
        if i < a.len() {
            assert(a[i] == '>');
            assert(s[i - 1] == a[i - 1]);
        } else {
            assert(b[i - a.len()] == '>');
            assert(s[i - 1] == b[i - a.len() - 1]);
        }
    }
}

proof fn lemma_closes_all<T>(s: Seq<T>, f: spec_fn(T) -> Seq<char>)
    requires
        forall|i: int| 0 <= i < s.len() ==> closes_tags(f(#[trigger] s[i])),
    ensures
        closes_tags(text::concat_of(s, f)),
    decreases s.len(),
{
    if s.len() > 0 {
        let d = s.drop_last();
        assert forall|i: int| 0 <= i < d.len() implies closes_tags(f(#[trigger] d[i])) by {
            assert(d[i] == s[i]);
        }
        lemma_closes_all(d, f);
        assert(closes_tags(f(s[s.len() - 1])));
        lemma_closes_both(text::concat_of(d, f), f(s.last()));
    }
}

proof fn lemma_escaped_closes(s: Seq<char>)
    ensures
        closes_tags(escaped(s)),
{
    law_escaped_is_plain(s);
    assert forall|i: int| 0 <= i < escaped(s).len() && #[trigger] escaped(s)[i] == '>' implies i > 0
        && escaped(s)[i - 1] != '-' by {
        assert(!is_markup(escaped(s)[i]));
    }
}

proof fn lemma_attribute_closes(id: Seq<char>, a: AttributeModel, indent: nat)
    ensures
        closes_tags(attribute_xml(id, a, indent)),
{
    reveal_strlit("<attribute id=\"");
    reveal_strlit("\" type=\"");
    reveal_strlit("\" handle=\"");
    reveal_strlit("\" value=\"");
    reveal_strlit("\" />\n");
    lemma_escaped_closes(id);
    lemma_escaped_closes(a.attr_type);
    lemma_escaped_closes(a.value);
    let named = if translated(a.attr_type) {
        "\" handle=\""@
    } else {
        "\" value=\""@
    };
    let t1 = text::spaces(indent) + "<attribute id=\""@;
    let t2 = t1 + escaped(id);
    let t3 = t2 + "\" type=\""@;
    let t4 = t3 + escaped(a.attr_type);
    let t5 = t4 + named;
    let t6 = t5 + escaped(a.value);
    lemma_closes_both(text::spaces(indent), "<attribute id=\""@);
    lemma_closes_both(t1, escaped(id));
    lemma_closes_both(t2, "\" type=\""@);
    lemma_closes_both(t3, escaped(a.attr_type));
    lemma_closes_both(t4, named);
    lemma_closes_both(t5, escaped(a.value));
    lemma_closes_both(t6, "\" />\n"@);
}

proof fn lemma_child_closes(c: ChildModel, indent: nat)
    ensures
        closes_tags(child_xml(c, indent)),
{
    reveal_strlit("<node id=\"");
    reveal_strlit("\" />\n");
    reveal_strlit("\">\n");
    reveal_strlit("<attribute id=\"Object\" type=\"guid\" value=\"");
    reveal_strlit("</node>\n");
    lemma_escaped_closes(c.node_id);
    lemma_escaped_closes(c.object_guid);
    let t1 = text::spaces(indent) + "<node id=\""@;
    let t2 = t1 + escaped(c.node_id);
    let t3 = t2 + "\">\n"@;
    let t4 = t3 + text::spaces(indent + 2);
    let t5 = t4 + "<attribute id=\"Object\" type=\"guid\" value=\""@;
    let t6 = t5 + escaped(c.object_guid);
    let t7 = t6 + "\" />\n"@;
    let t8 = t7 + text::spaces(indent);
    lemma_closes_both(text::spaces(indent), "<node id=\""@);
    lemma_closes_both(t1, escaped(c.node_id));
    lemma_closes_both(t2, "\" />\n"@);
    lemma_closes_both(t2, "\">\n"@);
    lemma_closes_both(t3, text::spaces(indent + 2));
    lemma_closes_both(t4, "<attribute id=\"Object\" type=\"guid\" value=\""@);
    lemma_closes_both(t5, escaped(c.object_guid));
    lemma_closes_both(t6, "\" />\n"@);
    lemma_closes_both(t7, text::spaces(indent));
    lemma_closes_both(t8, "</node>\n"@);
}

proof fn lemma_child_list_closes(entries: Seq<ChildModel>, indent: nat)
    ensures
        closes_tags(text::concat_of(entries, child_writer(indent))),
{
    assert forall|i: int| 0 <= i < entries.len() implies closes_tags(
        child_writer(indent)(#[trigger] entries[i]),
    ) by {
        lemma_child_closes(entries[i], indent);
    }
    lemma_closes_all(entries, child_writer(indent));
}

proof fn lemma_group_closes(g: GroupModel, indent: nat)
    ensures
        closes_tags(group_xml(g, indent)),
{
    if is_container(g) {
        reveal_strlit("<node id=\"");
        reveal_strlit("\">\n");
        reveal_strlit("<children>\n");
        reveal_strlit("</children>\n");
        reveal_strlit("</node>\n");
        lemma_escaped_closes(g.group_id);
        let inner = text::concat_of(g.entries, child_writer(indent + 6));
        lemma_child_list_closes(g.entries, indent + 6);
        let t1 = text::spaces(indent + 2) + "<node id=\""@;
        let t2 = t1 + escaped(g.group_id);
        let t3 = t2 + "\">\n"@;
        let t4 = t3 + text::spaces(indent + 4);
        let t5 = t4 + "<children>\n"@;
        let t6 = t5 + inner;
        let t7 = t6 + text::spaces(indent + 4);
        let t8 = t7 + "</children>\n"@;
        let t9 = t8 + text::spaces(indent + 2);
        lemma_closes_both(text::spaces(indent + 2), "<node id=\""@);
        lemma_closes_both(t1, escaped(g.group_id));
        lemma_closes_both(t2, "\">\n"@);
        lemma_closes_both(t3, text::spaces(indent + 4));
        lemma_closes_both(t4, "<children>\n"@);
        lemma_closes_both(t5, inner);
        lemma_closes_both(t6, text::spaces(indent + 4));
        lemma_closes_both(t7, "</children>\n"@);
        lemma_closes_both(t8, text::spaces(indent + 2));
        lemma_closes_both(t9, "</node>\n"@);
    } else {
        lemma_child_list_closes(g.entries, indent + 2);
    }
}

proof fn lemma_children_close(groups: Seq<GroupModel>, indent: nat)
    ensures
        closes_tags(children_xml(groups, indent)),
{
    reveal_strlit("<children>\n");
    reveal_strlit("</children>\n");
    let inner = text::concat_of(groups, group_writer(indent));
    assert forall|i: int| 0 <= i < groups.len() implies closes_tags(
        group_writer(indent)(#[trigger] groups[i]),
    ) by {
        lemma_group_closes(groups[i], indent);
    }
    lemma_closes_all(groups, group_writer(indent));
    let t1 = text::spaces(indent) + "<children>\n"@;
    let t2 = t1 + inner;
    let t3 = t2 + text::spaces(indent);
    lemma_closes_both(text::spaces(indent), "<children>\n"@);
    lemma_closes_both(t1, inner);
    lemma_closes_both(t2, text::spaces(indent));
    lemma_closes_both(t3, "</children>\n"@);
}

proof fn lemma_entry_closes(e: EntryModel, indent: nat)
    ensures
        closes_tags(entry_xml(e, indent)),
{
    reveal_strlit("<node id=\"");
    reveal_strlit("\">\n");
    reveal_strlit("</node>\n");
    lemma_escaped_closes(e.node_id);
    let w = written_order(e.attributes);
    let attrs = text::concat_of(w, attribute_writer(indent + 2));
    assert forall|i: int| 0 <= i < w.len() implies closes_tags(
        attribute_writer(indent + 2)(#[trigger] w[i]),
    ) by {
        lemma_attribute_closes(w[i].0, w[i].1, indent + 2);
    }
    lemma_closes_all(w, attribute_writer(indent + 2));
    let kids = if e.children.len() > 0 {
        children_xml(e.children, indent + 2)
    } else {
        Seq::empty()
    };
    lemma_children_close(e.children, indent + 2);
    let t1 = text::spaces(indent) + "<node id=\""@;
    let t2 = t1 + escaped(e.node_id);
    let t3 = t2 + "\">\n"@;
    let t4 = t3 + attrs;
    let t5 = t4 + kids;
    let t6 = t5 + text::spaces(indent);
    lemma_closes_both(text::spaces(indent), "<node id=\""@);
    lemma_closes_both(t1, escaped(e.node_id));
    lemma_closes_both(t2, "\">\n"@);
    lemma_closes_both(t3, attrs);
    lemma_closes_both(t4, kids);
    lemma_closes_both(t5, text::spaces(indent));
    lemma_closes_both(t6, "</node>\n"@);
}

/// A comment around an entry ends where it was closed and nowhere before: the
/// entry holds no end of a comment, whatever its attributes are.
pub proof fn law_comment_holds_entry(e: EntryModel, indent: nat)
    ensures
        commented_xml(e, indent) == text::spaces(indent) + "<!--\n"@ + entry_xml(e, indent + 2)
            + text::spaces(indent) + "-->\n"@,
        !text::has_text(entry_xml(e, indent + 2), "-->"@),
{
    lemma_entry_closes(e, indent + 2);
    let body = entry_xml(e, indent + 2);
    reveal_strlit("-->");
    assert forall|i: int| !text::occurs_at(body, "-->"@, i) by {
        if text::occurs_at(body, "-->"@, i) {
            let found = body.subrange(i, i + "-->"@.len());
            assert(found[1] == body[i + 1]);
            assert(found[2] == body[i + 2]);
            assert(closes_tags(body));
            assert(body[i + 2] == '>');
        }
    }
}

/// The number of dashes in a text.
pub open spec fn dashes(s: Seq<char>) -> nat {
    s.filter(|c: char| c == '-').len()
}

/// Whether a character may stand in a GUID.
pub open spec fn guid_char(c: char) -> bool {
    '0' <= c <= '9' || 'a' <= c <= 'f' || 'A' <= c <= 'F' || c == '-'
}

/// Whether a text looks like a GUID.
pub open spec fn guid_shaped(s: Seq<char>) -> bool {
    s.len() == 36 && dashes(s) == 4 && forall|i: int| 0 <= i < s.len() ==> guid_char(#[trigger] s[i])
}

/// The attribute type that a name and a value suggest.
pub open spec fn inferred_type(key: Seq<char>, value: Seq<char>) -> Seq<char> {
    if key_name(key) || guid_shaped(value) {
        "guid"@
    } else if value == "true"@ || value == "false"@ || value == "True"@ || value == "False"@ {
        "bool"@
    } else if text::number_within(value, i64::MIN as int, i64::MAX as int) is Some {
        "int32"@
    } else {
        "FixedString"@
    }
}

#[verifier::loop_isolation(false)]
fn looks_like_guid(value: &str) -> (r: bool)
    ensures
        r == guid_shaped(value@),
{
    let v = chars_of(value);
    if v.len() != 36 {
        return false;
    }
    let mut count: usize = 0;
    let mut i: usize = 0;
    while i < v.len()
        invariant
            i <= v@.len(),
            count <= i,
            count == dashes(value@.take(i as int)),
            forall|k: int| 0 <= k < i ==> guid_char(#[trigger] value@[k]),
        decreases v@.len() - i,
    {
        let c = v[i];
        if !(('0' <= c && c <= '9') || ('a' <= c && c <= 'f') || ('A' <= c && c <= 'F') || c
            == '-') {
            return false;
        }
        assert(value@.take(i + 1).drop_last() =~= value@.take(i as int));
        proof {
            reveal(Seq::filter);
        }
        if c == '-' {
            count += 1;
        }
        i += 1;
    }
    assert(value@.take(i as int) =~= value@);
    count == 4
}

/// The attribute type that a name and a value suggest.
pub fn infer_attribute_type(key: &str, value: &str) -> (r: String)
    ensures
        r@ == inferred_type(key@, value@),
{
    if is_key_name(key) || looks_like_guid(value) {
        owned("guid")
    } else if text_eq(value, "true") || text_eq(value, "false") || text_eq(value, "True")
        || text_eq(value, "False") {
        owned("bool")
    } else if parse_i64(value).is_some() {
        owned("int32")
    } else {
        owned("FixedString")
    }
}

/// A group's name without the `s` at its end.
pub open spec fn singular(group_id: Seq<char>) -> Seq<char> {
    if group_id.len() > 1 && group_id.last() == 's' {
        group_id.drop_last()
    } else {
        group_id
    }
}

/// The node name of a group's members.
pub fn singularize(group_id: &str) -> (r: String)
    ensures
        r@ == singular(group_id@),
{
    let v = chars_of(group_id);
    if v.len() > 1 && v[v.len() - 1] == 's' {
        text_of(&v, 0, v.len() - 1)
    } else {
        owned(group_id)
    }
}

/// The attribute that a raw value stands for.
pub open spec fn rebuilt_attribute(
    types: Seq<(Seq<char>, Seq<char>)>,
    p: (Seq<char>, Seq<char>),
) -> (Seq<char>, AttributeModel) {
    (
        p.0,
        AttributeModel {
            attr_type: match textmap::value_of(types, p.0) {
                Some(t) => t,
                None => inferred_type(p.0, p.1),
            },
            value: p.1,
        },
    )
}

/// The child group that a list of GUIDs stands for.
pub open spec fn rebuilt_group(p: (Seq<char>, Seq<Seq<char>>)) -> GroupModel {
    GroupModel {
        group_id: p.0,
        entries: p.1.map_values(
            |guid: Seq<char>| ChildModel { node_id: singular(p.0), object_guid: guid },
        ),
    }
}

/// The entry that raw attribute, type and child maps stand for.
pub open spec fn rebuilt_entry(
    uuid: Seq<char>,
    node_id: Seq<char>,
    attributes: Seq<(Seq<char>, Seq<char>)>,
    types: Seq<(Seq<char>, Seq<char>)>,
    children: Seq<(Seq<char>, Seq<Seq<char>>)>,
) -> EntryModel {
    EntryModel {
        uuid,
        node_id,
        attributes: attributes.map_values(
            |p: (Seq<char>, Seq<char>)| rebuilt_attribute(types, p),
        ),
        children: children.map_values(|p: (Seq<char>, Seq<Seq<char>>)| rebuilt_group(p)),
        commented: false,
        region_id: Seq::empty(),
    }
}

#[verifier::loop_isolation(false)]
fn rebuild_group(group_id: &String, guids: &Vec<String>) -> (r: LsxChildGroup)
    ensures
        r.deep_view() == rebuilt_group((group_id@, guids.deep_view())),
{
    let ghost want = rebuilt_group((group_id@, guids.deep_view())).entries;
    let mut entries: Vec<LsxChildEntry> = Vec::new();
    let mut i: usize = 0;
    while i < guids.len()
        invariant
            i <= guids@.len(),
            entries.deep_view() == want.take(i as int),
        decreases guids@.len() - i,
    {
        entries.push(
            LsxChildEntry {
                node_id: singularize(group_id.as_str()),
                object_guid: guids[i].clone(),
            },
        );
        i += 1;
        assert(entries.deep_view() =~= want.take(i as int));
    }
    assert(want.take(i as int) =~= want);
    LsxChildGroup { group_id: group_id.clone(), entries }
}

/// The entry that raw attribute, type and child maps stand for.
#[verifier::loop_isolation(false)]
pub fn reconstruct_lsx_entry(
    uuid: &str,
    node_id: &str,
    raw_attributes: &TextMap<String>,
    raw_attribute_types: &TextMap<String>,
    raw_children: &TextMap<Vec<String>>,
) -> (r: LsxEntry)
    ensures
        r.deep_view() == rebuilt_entry(
            uuid@,
            node_id@,
            raw_attributes.deep_view(),
            raw_attribute_types.deep_view(),
            raw_children.deep_view(),
        ),
{
    let ghost want = rebuilt_entry(
        uuid@,
        node_id@,
        raw_attributes.deep_view(),
        raw_attribute_types.deep_view(),
        raw_children.deep_view(),
    );
    let mut attributes: Vec<(String, LsxAttribute)> = Vec::new();
    let mut i: usize = 0;
    while i < raw_attributes.entries.len()
        invariant
            i <= raw_attributes.entries@.len(),
            attributes.deep_view() == want.attributes.take(i as int),
        decreases raw_attributes.entries@.len() - i,
    {
        let key = &raw_attributes.entries[i].0;
        let value = &raw_attributes.entries[i].1;
        assert(raw_attributes.deep_view()[i as int] == (key@, value@));
        let attr_type = match raw_attribute_types.get(key.as_str()) {
            Some(t) => t.clone(),
            None => infer_attribute_type(key.as_str(), value.as_str()),
        };
        attributes.push((key.clone(), LsxAttribute { attr_type, value: value.clone() }));
        i += 1;
        assert(attributes.deep_view() =~= want.attributes.take(i as int));
    }
    assert(want.attributes.take(i as int) =~= want.attributes);
    let mut children: Vec<LsxChildGroup> = Vec::new();
    let mut j: usize = 0;
    while j < raw_children.entries.len()
        invariant
            j <= raw_children.entries@.len(),
            children.deep_view() == want.children.take(j as int),
        decreases raw_children.entries@.len() - j,
    {
        let p = &raw_children.entries[j];
        assert(raw_children.deep_view()[j as int] == (p.0@, p.1.deep_view()));
        children.push(rebuild_group(&p.0, &p.1));
        j += 1;
        assert(children.deep_view() =~= want.children.take(j as int));
    }
    assert(want.children.take(j as int) =~= want.children);
    let r = LsxEntry {
        uuid: owned(uuid),
        node_id: owned(node_id),
        attributes: TextMap { entries: attributes },
        children,
        commented: false,
        region_id: String::new(),
    };
    assert(r.deep_view() == want);
    r
}

/// Whether an attribute has the type that its name and its value suggest.
pub open spec fn is_typed(name: Seq<char>, a: AttributeModel) -> bool {
    let names_key = name == "UUID"@ || name == "MapKey"@;
    let says_bool = a.value == "true"@ || a.value == "false"@ || a.value == "True"@ || a.value
        == "False"@;
    &&& names_key ==> a.attr_type == "guid"@
    &&& a.attr_type == "guid"@ ==> names_key || (a.value.len() == 36 && a.value.filter(
        |c: char| c == '-',
    ).len() == 4)
    &&& !names_key && says_bool ==> a.attr_type == "bool"@
    &&& a.attr_type == "bool"@ ==> says_bool
    &&& a.attr_type == "int32"@ ==> text::number_value(a.value) is Some
    &&& a.attr_type == "guid"@ || a.attr_type == "bool"@ || a.attr_type == "int32"@ || a.attr_type
        == "FixedString"@
}

/// An entry that is rebuilt has each attribute with its value and its known type, or else
/// the type that they suggest; and each group with its members, which are called like the
/// group without the `s` at its end.
pub proof fn law_entry_is_rebuilt(
    uuid: Seq<char>,
    node_id: Seq<char>,
    attributes: Seq<(Seq<char>, Seq<char>)>,
    types: Seq<(Seq<char>, Seq<char>)>,
    children: Seq<(Seq<char>, Seq<Seq<char>>)>,
)
    ensures
        ({
            let e = rebuilt_entry(uuid, node_id, attributes, types, children);
            &&& e.uuid == uuid
            &&& e.node_id == node_id
            &&& !e.commented
            &&& e.attributes.len() == attributes.len()
            &&& forall|i: int|
                0 <= i < attributes.len() ==> {
                    let a = #[trigger] e.attributes[i];
                    &&& a.0 == attributes[i].0
                    &&& a.1.value == attributes[i].1
                    &&& textmap::value_of(types, a.0) matches Some(t) ==> a.1.attr_type == t
                    &&& !textmap::has_key(types, a.0) ==> is_typed(a.0, a.1)
                }
            &&& e.children.len() == children.len()
            &&& forall|i: int, k: int|
                0 <= i < children.len() && 0 <= k < children[i].1.len() ==> {
                    let c = #[trigger] e.children[i].entries[k];
                    let g = children[i].0;
                    &&& c.object_guid == children[i].1[k]
                    &&& c.node_id == g || (g == c.node_id + seq!['s'] && c.node_id.len() > 0)
                    &&& g.len() > 1 && g[g.len() - 1] == 's' ==> c.node_id != g
                }
            &&& forall|i: int|
                0 <= i < children.len() ==> (#[trigger] e.children[i]).group_id == children[i].0
                    && e.children[i].entries.len() == children[i].1.len()
        }),
{
    let e = rebuilt_entry(uuid, node_id, attributes, types, children);
    reveal_strlit("UUID");
    reveal_strlit("MapKey");
    reveal_strlit("guid");
    reveal_strlit("bool");
    reveal_strlit("int32");
    reveal_strlit("FixedString");
    assert("guid"@.len() == 4 && "bool"@.len() == 4 && "int32"@.len() == 5
        && "FixedString"@.len() == 11);
    assert("guid"@[0] == 'g' && "bool"@[0] == 'b');
    reveal_strlit("true");
    reveal_strlit("false");
    reveal_strlit("True");
    reveal_strlit("False");
    assert forall|i: int, k: int|
        0 <= i < children.len() && 0 <= k < children[i].1.len() implies {
        let c = #[trigger] e.children[i].entries[k];
        let g = children[i].0;
        &&& c.object_guid == children[i].1[k]
        &&& c.node_id == g || (g == c.node_id + seq!['s'] && c.node_id.len() > 0)
        &&& g.len() > 1 && g[g.len() - 1] == 's' ==> c.node_id != g
    } by {
        let g = children[i].0;
        if g.len() > 1 && g.last() == 's' {
            assert(g =~= singular(g) + seq!['s']);
        }
    }
}

} // verus!
