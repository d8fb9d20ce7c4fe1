//! Reading back what was written as LSX: nothing of an entry is lost, and nothing is
//! added.

use vstd::prelude::*;
use crate::lsx_writer;
use crate::models::{AttributeModel, ChildModel, EntryModel, GroupModel};
use crate::order;
use crate::text;
use crate::textmap;

verus! {

// ---------------------------------------------------------------------------
// Tags
// ---------------------------------------------------------------------------

/// What was read of a text: the tags, and what stands behind a `<` that no tag ended yet.
pub struct TagScan {
    pub tags: Seq<Seq<char>>,
    pub open: Option<Seq<char>>,
}

/// What was read after one more character. A tag reaches from `<` to `>`, or to the
/// next `<`.
pub open spec fn scan_char(st: TagScan, c: char) -> TagScan {
    match st.open {
        Some(t) => if c == '<' {
            TagScan { tags: st.tags.push(t), open: Some(Seq::empty()) }
        } else if c == '>' {
            TagScan { tags: st.tags.push(t), open: None }
        } else {
            TagScan { tags: st.tags, open: Some(t.push(c)) }
        },
        None => if c == '<' {
            TagScan { tags: st.tags, open: Some(Seq::empty()) }
        } else {
            st
        },
    }
}

/// What was read after a text.
pub open spec fn scan(st: TagScan, s: Seq<char>) -> TagScan
    decreases s.len(),
{
    if s.len() == 0 {
        st
    } else {
        scan_char(scan(st, s.drop_last()), s.last())
    }
}

/// The tags of a text.
pub open spec fn tags_in(s: Seq<char>) -> Seq<Seq<char>> {
    scan(TagScan { tags: Seq::empty(), open: None }, s).tags
}

/// The text that an escaped text stands for.
pub open spec fn unescaped(s: Seq<char>) -> Seq<char>
    decreases s.len(),
{
    if s.len() == 0 {
        s
    } else if s.len() >= 5 && s.take(5) == "&amp;"@ {
        seq!['&'] + unescaped(s.skip(5))
    } else if s.len() >= 4 && s.take(4) == "&lt;"@ {
        seq!['<'] + unescaped(s.skip(4))
    } else if s.len() >= 4 && s.take(4) == "&gt;"@ {
        seq!['>'] + unescaped(s.skip(4))
    } else if s.len() >= 6 && s.take(6) == "&quot;"@ {
        seq!['"'] + unescaped(s.skip(6))
    } else {
        seq![s[0]] + unescaped(s.skip(1))
    }
}

/// What a tag says.
pub enum Item {
    /// A node with something in it.
    Open(Seq<char>),
    /// A node with nothing in it.
    Leaf(Seq<char>),
    /// An attribute, and whether its value is a handle.
    Attribute(Seq<char>, AttributeModel, bool),
    Children,
    EndChildren,
    EndNode,
    Region(Seq<char>),
    Comment,
    Other,
}

/// What a tag says.
pub open spec fn item_of(tag: Seq<char>) -> Item {
    let p = text::pieces(tag, '"');
    if tag == "children"@ {
        Item::Children
    } else if tag == "/children"@ {
        Item::EndChildren
    } else if tag == "/node"@ {
        Item::EndNode
    } else if "!--"@.is_prefix_of(tag) {
        Item::Comment
    } else if p.len() == 3 && p[0] == "region id="@ && p[2].len() == 0 {
        Item::Region(unescaped(p[1]))
    } else if p.len() == 3 && p[0] == "node id="@ && p[2].len() == 0 {
        Item::Open(unescaped(p[1]))
    } else if p.len() == 3 && p[0] == "node id="@ && p[2] == " /"@ {
        Item::Leaf(unescaped(p[1]))
    } else if p.len() == 7 && p[0] == "attribute id="@ && p[2] == " type="@ && (p[4] == " value="@
        || p[4] == " handle="@) && p[6] == " /"@ {
        Item::Attribute(
            unescaped(p[1]),
            AttributeModel { attr_type: unescaped(p[3]), value: unescaped(p[5]) },
            p[4] == " handle="@,
        )
    } else {
        Item::Other
    }
}

/// What the tags of a text say.
pub open spec fn items_in(s: Seq<char>) -> Seq<Item> {
    tags_in(s).map_values(|t: Seq<char>| item_of(t))
}

// ---------------------------------------------------------------------------
// Entries
// ---------------------------------------------------------------------------

/// What is read of the children of an entry.
pub enum Kid {
    /// A node around children begins.
    Group(Seq<char>),
    Child(ChildModel),
    /// What is around children ends.
    End,
}

/// What is read of an entry.
pub struct EntryRead {
    pub node_id: Seq<char>,
    pub attributes: Seq<(Seq<char>, AttributeModel)>,
    /// Of each attribute whether its value is a handle.
    pub handles: Seq<bool>,
    pub kids: Seq<Kid>,
}

/// The number of attributes that items begin with.
pub open spec fn attributes_ahead(items: Seq<Item>) -> nat
    decreases items.len(),
{
    if items.len() > 0 && items[0] is Attribute {
        1 + attributes_ahead(items.skip(1))
    } else {
        0
    }
}

/// The children that items begin with.
pub open spec fn kids_ahead(items: Seq<Item>) -> Seq<Kid>
    decreases items.len(),
{
    if items.len() >= 3 && items[0] is Open && items[1] is Attribute && items[2] is EndNode
        && items[1]->Attribute_0 == "Object"@ && items[1]->Attribute_1.attr_type == "guid"@
        && !items[1]->Attribute_2 {
        seq![
            Kid::Child(
                ChildModel {
                    node_id: items[0]->Open_0,
                    object_guid: items[1]->Attribute_1.value,
                },
            ),
        ] + kids_ahead(items.skip(3))
    } else if items.len() >= 2 && items[0] is Open && items[1] is Children {
        seq![Kid::Group(items[0]->Open_0)] + kids_ahead(items.skip(2))
    } else if items.len() >= 2 && items[0] is EndChildren && items[1] is EndNode {
        seq![Kid::End] + kids_ahead(items.skip(2))
    } else if items.len() >= 1 && items[0] is Leaf {
        seq![
            Kid::Child(ChildModel { node_id: items[0]->Leaf_0, object_guid: Seq::empty() }),
        ] + kids_ahead(items.skip(1))
    } else {
        Seq::empty()
    }
}

/// The entry that items say: its node, its attributes, and its children.
pub open spec fn entry_read(items: Seq<Item>) -> Option<EntryRead> {
    let n = attributes_ahead(items.skip(1));
    let rest = items.skip(1 + n as int);
    if items.len() < 2 || !(items[0] is Open) || !(items.last() is EndNode) {
        None
    } else {
        Some(
            EntryRead {
                node_id: items[0]->Open_0,
                attributes: Seq::new(
                    n,
                    |i: int| (items[1 + i]->Attribute_0, items[1 + i]->Attribute_1),
                ),
                handles: Seq::new(n, |i: int| items[1 + i]->Attribute_2),
                kids: if rest.len() > 0 && rest[0] is Children {
                    kids_ahead(rest.skip(1))
                } else {
                    Seq::empty()
                },
            },
        )
    }
}

/// What there is to be read of a group of children: its children in order, with a node
/// around them where one of them is called otherwise than the group.
pub open spec fn kids_of_group(g: GroupModel) -> Seq<Kid> {
    let children = g.entries.map_values(|c: ChildModel| Kid::Child(c));
    if exists|i: int| 0 <= i < g.entries.len() && (#[trigger] g.entries[i]).node_id != g.group_id {
        seq![Kid::Group(g.group_id)] + children + seq![Kid::End]
    } else {
        children
    }
}

/// What there is to be read of groups of children.
pub open spec fn kids_of(groups: Seq<GroupModel>) -> Seq<Kid>
    decreases groups.len(),
{
    if groups.len() == 0 {
        Seq::empty()
    } else {
        kids_of(groups.drop_last()) + kids_of_group(groups.last())
    }
}

/// Whether an attribute is written before another: `UUID` and `MapKey` stand first.
pub open spec fn written_before(a: Seq<char>, b: Seq<char>) -> bool {
    let first = |n: Seq<char>| n == "UUID"@ || n == "MapKey"@;
    (first(a) && !first(b)) || (first(a) == first(b) && order::text_lt(a, b))
}

/// Whether an entry was read as it is: its node, all its attributes in their order, and
/// all its children.
pub open spec fn reads_as(r: Option<EntryRead>, e: EntryModel) -> bool {
    &&& r is Some
    &&& r->0.node_id == e.node_id
    &&& r->0.attributes.to_multiset() == e.attributes.to_multiset()
    &&& r->0.handles.len() == r->0.attributes.len()
    &&& forall|i: int|
        0 <= i < r->0.attributes.len() ==> r->0.handles[i] == ((
        #[trigger] r->0.attributes[i]).1.attr_type == "TranslatedString"@
            || r->0.attributes[i].1.attr_type == "TranslatedFSString"@)
    &&& forall|i: int, j: int|
        0 <= i < j < r->0.attributes.len() ==> written_before(
            (#[trigger] r->0.attributes[i]).0,
            (#[trigger] r->0.attributes[j]).0,
        )
    &&& r->0.kids == if e.children.len() > 0 {
        kids_of(e.children).push(Kid::End)
    } else {
        Seq::empty()
    }
}

// ---------------------------------------------------------------------------
// Reading characters
// ---------------------------------------------------------------------------

spec fn plain(s: Seq<char>) -> bool {
    forall|i: int| 0 <= i < s.len() ==> #[trigger] s[i] != '<' && s[i] != '>'
}

spec fn outside(tags: Seq<Seq<char>>) -> TagScan {
    TagScan { tags, open: None }
}

proof fn lemma_scan_both(st: TagScan, a: Seq<char>, b: Seq<char>)
    ensures
        scan(st, a + b) == scan(scan(st, a), b),
    decreases b.len(),
{
    if b.len() == 0 {
        assert(a + b =~= a);
    } else {
        lemma_scan_both(st, a, b.drop_last());
        assert((a + b).drop_last() =~= a + b.drop_last());
        assert((a + b).last() == b.last());
    }
}

proof fn lemma_scan_plain(st: TagScan, s: Seq<char>)
    requires
        plain(s),
    ensures
        scan(st, s) == match st.open {
            Some(t) => TagScan { tags: st.tags, open: Some(t + s) },
            None => st,
        },
    decreases s.len(),
{
    if s.len() == 0 {
        if st.open is Some {
            assert(st.open->0 + s =~= st.open->0);
        }
    } else {
        let d = s.drop_last();
        assert forall|i: int| 0 <= i < d.len() implies #[trigger] d[i] != '<' && d[i] != '>' by {
            assert(d[i] == s[i]);
        }
        lemma_scan_plain(st, d);
        assert(s[s.len() - 1] == s.last());
        if st.open is Some {
            assert((st.open->0 + d).push(s.last()) =~= st.open->0 + s);
        }
    }
}

proof fn lemma_scan_one(st: TagScan, c: char)
    ensures
        scan(st, seq![c]) == scan_char(st, c),
{
    assert(seq![c].drop_last() =~= Seq::<char>::empty());
    reveal_with_fuel(scan, 2);
}

proof fn lemma_plain_spaces(n: nat)
    ensures
        plain(text::spaces(n)),
{
}

proof fn lemma_plain_escaped(s: Seq<char>)
    ensures
        plain(lsx_writer::escaped(s)),
{
    lsx_writer::law_escaped_is_plain(s);
    assert forall|i: int| 0 <= i < lsx_writer::escaped(s).len() implies #[trigger]
        lsx_writer::escaped(s)[i] != '<' && lsx_writer::escaped(s)[i] != '>' by {
        assert(!lsx_writer::is_markup(lsx_writer::escaped(s)[i]));
    }
}

/// A text without a tag, and then a tag.
proof fn lemma_scan_tag(tags: Seq<Seq<char>>, pad: Seq<char>, body: Seq<char>, tail: Seq<char>)
    requires
        plain(pad),
        plain(body),
        plain(tail),
    ensures
        scan(outside(tags), pad + seq!['<'] + body + seq!['>'] + tail) == outside(tags.push(body)),
{
    let st = outside(tags);
    lemma_scan_both(st, pad + seq!['<'] + body + seq!['>'], tail);
    lemma_scan_both(st, pad + seq!['<'] + body, seq!['>']);
    lemma_scan_both(st, pad + seq!['<'], body);
    lemma_scan_both(st, pad, seq!['<']);
    lemma_scan_plain(st, pad);
    lemma_scan_one(st, '<');
    let opened = TagScan { tags, open: Some(Seq::empty()) };
    lemma_scan_plain(opened, body);
    assert(Seq::<char>::empty() + body =~= body);
    let full = TagScan { tags, open: Some(body) };
    lemma_scan_one(full, '>');
    lemma_scan_plain(outside(tags.push(body)), tail);
}

// ---------------------------------------------------------------------------
// The tags of what is written
// ---------------------------------------------------------------------------

spec fn node_tag(id: Seq<char>, tail: Seq<char>) -> Seq<char> {
    "node id=\""@ + lsx_writer::escaped(id) + "\""@ + tail
}

spec fn attribute_tag(id: Seq<char>, a: AttributeModel) -> Seq<char> {
    "attribute id=\""@ + lsx_writer::escaped(id) + "\" type=\""@ + lsx_writer::escaped(a.attr_type)
        + (if lsx_writer::translated(a.attr_type) {
        "\" handle=\""@
    } else {
        "\" value=\""@
    }) + lsx_writer::escaped(a.value) + "\" /"@
}

spec fn child_tags(c: ChildModel) -> Seq<Seq<char>> {
    if c.object_guid.len() == 0 {
        seq![node_tag(c.node_id, " /"@)]
    } else {
        seq![
            node_tag(c.node_id, Seq::empty()),
            "attribute id=\"Object\" type=\"guid\" value=\""@ + lsx_writer::escaped(c.object_guid)
                + "\" /"@,
            "/node"@,
        ]
    }
}

spec fn joined_tags<T>(s: Seq<T>, f: spec_fn(T) -> Seq<Seq<char>>) -> Seq<Seq<char>>
    decreases s.len(),
{
    if s.len() == 0 {
        Seq::empty()
    } else {
        joined_tags(s.drop_last(), f) + f(s.last())
    }
}

spec fn group_tags(g: GroupModel) -> Seq<Seq<char>> {
    let kids = joined_tags(g.entries, |c: ChildModel| child_tags(c));
    if lsx_writer::is_container(g) {
        seq![node_tag(g.group_id, Seq::empty()), "children"@] + kids + seq!["/children"@, "/node"@]
    } else {
        kids
    }
}

spec fn entry_tags(e: EntryModel) -> Seq<Seq<char>> {
    seq![node_tag(e.node_id, Seq::empty())] + joined_tags(
        lsx_writer::written_order(e.attributes),
        |p: (Seq<char>, AttributeModel)| seq![attribute_tag(p.0, p.1)],
    ) + (if e.children.len() > 0 {
        seq!["children"@] + joined_tags(e.children, |g: GroupModel| group_tags(g)) + seq![
            "/children"@,
        ]
    } else {
        Seq::empty()
    }) + seq!["/node"@]
}

proof fn lemma_scan_joined<T>(
    tags: Seq<Seq<char>>,
    s: Seq<T>,
    write: spec_fn(T) -> Seq<char>,
    told: spec_fn(T) -> Seq<Seq<char>>,
)
    requires
        forall|i: int, t: Seq<Seq<char>>|
            0 <= i < s.len() ==> #[trigger] scan(outside(t), write(s[i])) == outside(
                t + told(s[i]),
            ),
    ensures
        scan(outside(tags), text::concat_of(s, write)) == outside(tags + joined_tags(s, told)),
    decreases s.len(),
{
    if s.len() == 0 {
        assert(tags + joined_tags(s, told) =~= tags);
    } else {
        let d = s.drop_last();
        assert forall|i: int, t: Seq<Seq<char>>|
            0 <= i < d.len() implies #[trigger] scan(outside(t), write(d[i])) == outside(
            t + told(d[i]),
        ) by {
            assert(d[i] == s[i]);
            assert(scan(outside(t), write(s[i])) == outside(t + told(s[i])));
        }
        lemma_scan_joined(tags, d, write, told);
        lemma_scan_both(outside(tags), text::concat_of(d, write), write(s.last()));
        let l = s.len() - 1;
        let before = tags + joined_tags(d, told);
        assert(s[l] == s.last());
        assert(scan(outside(before), write(s[l])) == outside(before + told(s[l])));
        assert(before + told(s.last()) =~= tags + joined_tags(s, told));
    }
}

proof fn lemma_node_tag(tags: Seq<Seq<char>>, indent: nat, id: Seq<char>)
    ensures
        scan(
            outside(tags),
            text::spaces(indent) + "<node id=\""@ + lsx_writer::escaped(id) + "\">\n"@,
        ) == outside(tags.push(node_tag(id, Seq::empty()))),
        scan(
            outside(tags),
            text::spaces(indent) + "<node id=\""@ + lsx_writer::escaped(id) + "\" />\n"@,
        ) == outside(tags.push(node_tag(id, " /"@))),
{
    reveal_strlit("<node id=\"");
    reveal_strlit("node id=\"");
    reveal_strlit("\">\n");
    reveal_strlit("\" />\n");
    reveal_strlit("\"");
    reveal_strlit(" /");
    lemma_plain_spaces(indent);
    lemma_plain_escaped(id);
    let pad = text::spaces(indent);
    let a = node_tag(id, Seq::empty());
    let b = node_tag(id, " /"@);
    assert(plain(a));
    assert(plain(b));
    lemma_scan_tag(tags, pad, a, seq!['\n']);
    lemma_scan_tag(tags, pad, b, seq!['\n']);
    assert(pad + "<node id=\""@ + lsx_writer::escaped(id) + "\">\n"@ =~= pad + seq!['<'] + a + seq![
        '>',
    ] + seq!['\n']);
    assert(pad + "<node id=\""@ + lsx_writer::escaped(id) + "\" />\n"@ =~= pad + seq!['<'] + b
        + seq!['>'] + seq!['\n']);
}

proof fn lemma_fixed_tags(tags: Seq<Seq<char>>, indent: nat)
    ensures
        scan(outside(tags), text::spaces(indent) + "</node>\n"@) == outside(tags.push("/node"@)),
        scan(outside(tags), text::spaces(indent) + "<children>\n"@) == outside(
            tags.push("children"@),
        ),
        scan(outside(tags), text::spaces(indent) + "</children>\n"@) == outside(
            tags.push("/children"@),
        ),
{
    reveal_strlit("</node>\n");
    reveal_strlit("/node");
    reveal_strlit("<children>\n");
    reveal_strlit("children");
    reveal_strlit("</children>\n");
    reveal_strlit("/children");
    lemma_plain_spaces(indent);
    let pad = text::spaces(indent);
    lemma_scan_tag(tags, pad, "/node"@, seq!['\n']);
    lemma_scan_tag(tags, pad, "children"@, seq!['\n']);
    lemma_scan_tag(tags, pad, "/children"@, seq!['\n']);
    assert(pad + "</node>\n"@ =~= pad + seq!['<'] + "/node"@ + seq!['>'] + seq!['\n']);
    assert(pad + "<children>\n"@ =~= pad + seq!['<'] + "children"@ + seq!['>'] + seq!['\n']);
    assert(pad + "</children>\n"@ =~= pad + seq!['<'] + "/children"@ + seq!['>'] + seq!['\n']);
}

proof fn lemma_attribute_tag(
    tags: Seq<Seq<char>>,
    indent: nat,
    id: Seq<char>,
    a: AttributeModel,
)
    ensures
        scan(outside(tags), lsx_writer::attribute_xml(id, a, indent)) == outside(
            tags.push(attribute_tag(id, a)),
        ),
{
    reveal_strlit("<attribute id=\"");
    reveal_strlit("attribute id=\"");
    reveal_strlit("\" type=\"");
    reveal_strlit("\" handle=\"");
    reveal_strlit("\" value=\"");
    reveal_strlit("\" />\n");
    reveal_strlit("\" /");
    lemma_plain_spaces(indent);
    lemma_plain_escaped(id);
    lemma_plain_escaped(a.attr_type);
    lemma_plain_escaped(a.value);
    let pad = text::spaces(indent);
    let body = attribute_tag(id, a);
    assert(plain(body));
    lemma_scan_tag(tags, pad, body, seq!['\n']);
    assert(lsx_writer::attribute_xml(id, a, indent) =~= pad + seq!['<'] + body + seq!['>'] + seq![
        '\n',
    ]);
}

proof fn lemma_child_tags(tags: Seq<Seq<char>>, indent: nat, c: ChildModel)
    ensures
        scan(outside(tags), lsx_writer::child_xml(c, indent)) == outside(tags + child_tags(c)),
{
    lemma_node_tag(tags, indent, c.node_id);
    let pad = text::spaces(indent);
    if c.object_guid.len() == 0 {
        assert(tags + child_tags(c) =~= tags.push(node_tag(c.node_id, " /"@)));
    } else {
        reveal_strlit("<attribute id=\"Object\" type=\"guid\" value=\"");
        reveal_strlit("attribute id=\"Object\" type=\"guid\" value=\"");
        reveal_strlit("\" />\n");
        reveal_strlit("\" /");
        let guid = lsx_writer::escaped(c.object_guid);
        lemma_plain_escaped(c.object_guid);
        let inner = text::spaces(indent + 2);
        lemma_plain_spaces(indent + 2);
        let body = "attribute id=\"Object\" type=\"guid\" value=\""@ + guid + "\" /"@;
        assert(plain(body));
        let head = pad + "<node id=\""@ + lsx_writer::escaped(c.node_id) + "\">\n"@;
        let mid = inner + "<attribute id=\"Object\" type=\"guid\" value=\""@ + guid + "\" />\n"@;
        let foot = pad + "</node>\n"@;
        let t1 = tags.push(node_tag(c.node_id, Seq::empty()));
        lemma_scan_tag(t1, inner, body, seq!['\n']);
        assert(mid =~= inner + seq!['<'] + body + seq!['>'] + seq!['\n']);
        lemma_fixed_tags(t1.push(body), indent);
        assert(lsx_writer::child_xml(c, indent) =~= head + mid + foot);
        lemma_scan_both(outside(tags), head + mid, foot);
        lemma_scan_both(outside(tags), head, mid);
        assert(tags + child_tags(c) =~= t1.push(body).push("/node"@));
    }
}

proof fn lemma_kids_tags(tags: Seq<Seq<char>>, indent: nat, entries: Seq<ChildModel>)
    ensures
        scan(
            outside(tags),
            text::concat_of(entries, lsx_writer::child_writer(indent)),
        ) == outside(tags + joined_tags(entries, |c: ChildModel| child_tags(c))),
{
    let told = |c: ChildModel| child_tags(c);
    let write = lsx_writer::child_writer(indent);
    assert forall|i: int, t: Seq<Seq<char>>|
        0 <= i < entries.len() implies #[trigger] scan(outside(t), write(entries[i])) == outside(
        t + told(entries[i]),
    ) by {
        lemma_child_tags(t, indent, entries[i]);
    }
    lemma_scan_joined(tags, entries, write, told);
}

proof fn lemma_group_tags(tags: Seq<Seq<char>>, indent: nat, g: GroupModel)
    ensures
        scan(outside(tags), lsx_writer::group_xml(g, indent)) == outside(tags + group_tags(g)),
{
    let told = |c: ChildModel| child_tags(c);
    if lsx_writer::is_container(g) {
        let kids = text::concat_of(g.entries, lsx_writer::child_writer(indent + 6));
        let a = text::spaces(indent + 2) + "<node id=\""@ + lsx_writer::escaped(g.group_id)
            + "\">\n"@;
        let b = text::spaces(indent + 4) + "<children>\n"@;
        let c = text::spaces(indent + 4) + "</children>\n"@;
        let d = text::spaces(indent + 2) + "</node>\n"@;
        assert(lsx_writer::group_xml(g, indent) =~= a + b + kids + c + d);
        let t1 = tags.push(node_tag(g.group_id, Seq::empty()));
        let t2 = t1.push("children"@);
        let t3 = t2 + joined_tags(g.entries, told);
        let t4 = t3.push("/children"@);
        lemma_node_tag(tags, indent + 2, g.group_id);
        lemma_fixed_tags(t1, indent + 4);
        lemma_kids_tags(t2, indent + 6, g.entries);
        lemma_fixed_tags(t3, indent + 4);
        lemma_fixed_tags(t4, indent + 2);
        lemma_scan_both(outside(tags), a + b + kids + c, d);
        lemma_scan_both(outside(tags), a + b + kids, c);
        lemma_scan_both(outside(tags), a + b, kids);
        lemma_scan_both(outside(tags), a, b);
        assert(tags + group_tags(g) =~= t4.push("/node"@));
    } else {
        lemma_kids_tags(tags, indent + 2, g.entries);
    }
}

spec fn children_tags(groups: Seq<GroupModel>) -> Seq<Seq<char>> {
    seq!["children"@] + joined_tags(groups, |g: GroupModel| group_tags(g)) + seq!["/children"@]
}

proof fn lemma_children_tags(tags: Seq<Seq<char>>, indent: nat, groups: Seq<GroupModel>)
    ensures
        scan(outside(tags), lsx_writer::children_xml(groups, indent)) == outside(
            tags + children_tags(groups),
        ),
{
    let write = lsx_writer::group_writer(indent);
    let told = |g: GroupModel| group_tags(g);
    let inner = text::concat_of(groups, write);
    let a = text::spaces(indent) + "<children>\n"@;
    let b = text::spaces(indent) + "</children>\n"@;
    assert forall|i: int, t: Seq<Seq<char>>|
        0 <= i < groups.len() implies #[trigger] scan(outside(t), write(groups[i])) == outside(
        t + told(groups[i]),
    ) by {
        lemma_group_tags(t, indent, groups[i]);
    }
    let t1 = tags.push("children"@);
    let t2 = t1 + joined_tags(groups, told);
    lemma_fixed_tags(tags, indent);
    lemma_scan_joined(t1, groups, write, told);
    lemma_fixed_tags(t2, indent);
    assert(lsx_writer::children_xml(groups, indent) =~= a + inner + b);
    lemma_scan_both(outside(tags), a + inner, b);
    lemma_scan_both(outside(tags), a, inner);
    assert(tags + children_tags(groups) =~= t2.push("/children"@));
}

proof fn lemma_attributes_tags(
    tags: Seq<Seq<char>>,
    indent: nat,
    attrs: Seq<(Seq<char>, AttributeModel)>,
)
    ensures
        scan(
            outside(tags),
            text::concat_of(attrs, lsx_writer::attribute_writer(indent)),
        ) == outside(
            tags + joined_tags(
                attrs,
                |p: (Seq<char>, AttributeModel)| seq![attribute_tag(p.0, p.1)],
            ),
        ),
{
    let write = lsx_writer::attribute_writer(indent);
    let told = |p: (Seq<char>, AttributeModel)| seq![attribute_tag(p.0, p.1)];
    assert forall|i: int, t: Seq<Seq<char>>|
        0 <= i < attrs.len() implies #[trigger] scan(outside(t), write(attrs[i])) == outside(
        t + told(attrs[i]),
    ) by {
        lemma_attribute_tag(t, indent, attrs[i].0, attrs[i].1);
        assert(t + told(attrs[i]) =~= t.push(attribute_tag(attrs[i].0, attrs[i].1)));
    }
    lemma_scan_joined(tags, attrs, write, told);
}

proof fn lemma_entry_tags(tags: Seq<Seq<char>>, indent: nat, e: EntryModel)
    ensures
        scan(outside(tags), lsx_writer::entry_xml(e, indent)) == outside(tags + entry_tags(e)),
{
    let order = lsx_writer::written_order(e.attributes);
    let told = |p: (Seq<char>, AttributeModel)| seq![attribute_tag(p.0, p.1)];
    let head = text::spaces(indent) + "<node id=\""@ + lsx_writer::escaped(e.node_id) + "\">\n"@;
    let attrs = text::concat_of(order, lsx_writer::attribute_writer(indent + 2));
    let kids = if e.children.len() > 0 {
        lsx_writer::children_xml(e.children, indent + 2)
    } else {
        Seq::empty()
    };
    let foot = text::spaces(indent) + "</node>\n"@;
    let t1 = tags.push(node_tag(e.node_id, Seq::empty()));
    let t2 = t1 + joined_tags(order, told);
    let kid_tags = if e.children.len() > 0 {
        children_tags(e.children)
    } else {
        Seq::empty()
    };
    let t3 = t2 + kid_tags;
    lemma_node_tag(tags, indent, e.node_id);
    lemma_attributes_tags(t1, indent + 2, order);
    if e.children.len() > 0 {
        lemma_children_tags(t2, indent + 2, e.children);
    } else {
        assert(t2 + kid_tags =~= t2);
    }
    assert(scan(outside(t2), kids) == outside(t3));
    lemma_fixed_tags(t3, indent);
    assert(lsx_writer::entry_xml(e, indent) =~= head + attrs + kids + foot);
    lemma_scan_both(outside(tags), head + attrs + kids, foot);
    lemma_scan_both(outside(tags), head + attrs, kids);
    lemma_scan_both(outside(tags), head, attrs);
    assert(entry_tags(e) =~= seq![node_tag(e.node_id, Seq::empty())] + joined_tags(order, told)
        + kid_tags + seq!["/node"@]);
    assert(tags + entry_tags(e) =~= t3.push("/node"@));
}

// ---------------------------------------------------------------------------
// What the tags say
// ---------------------------------------------------------------------------

proof fn lemma_concat_front<T>(s: Seq<T>, f: spec_fn(T) -> Seq<char>)
    requires
        s.len() > 0,
    ensures
        text::concat_of(s, f) == f(s[0]) + text::concat_of(s.drop_first(), f),
    decreases s.len(),
{
    if s.len() == 1 {
        assert(s.drop_first() =~= Seq::<T>::empty());
        assert(s.drop_last() =~= Seq::<T>::empty());
        reveal_with_fuel(text::concat_of, 2);
        assert(text::concat_of(s, f) =~= f(s[0]) + text::concat_of(s.drop_first(), f));
    } else {
        let d = s.drop_last();
        lemma_concat_front(d, f);
        assert(d[0] == s[0]);
        assert(s.drop_first().drop_last() =~= d.drop_first());
        assert(s.drop_first().last() == s.last());
        assert(f(s[0]) + text::concat_of(d.drop_first(), f) + f(s.last()) =~= f(s[0]) + (
        text::concat_of(d.drop_first(), f) + f(s.last())));
    }
}

/// Reading an escaped text gives the text back, whatever it holds.
pub proof fn law_escaped_text_is_read_back(s: Seq<char>)
    ensures
        unescaped(lsx_writer::escaped(s)) == s,
    decreases s.len(),
{
    let w = lsx_writer::escaped(s);
    if s.len() == 0 {
        assert(w =~= s);
    } else {
        lemma_concat_front(s, lsx_writer::char_writer());
        let rest = lsx_writer::escaped(s.drop_first());
        let c = s[0];
        law_escaped_text_is_read_back(s.drop_first());
        reveal_strlit("&amp;");
        reveal_strlit("&lt;");
        reveal_strlit("&gt;");
        reveal_strlit("&quot;");
        assert(w == lsx_writer::escaped_char(c) + rest);
        assert("&amp;"@[1] == 'a' && "&lt;"@[1] == 'l' && "&gt;"@[1] == 'g' && "&quot;"@[1] == 'q');
        assert(s =~= seq![c] + s.drop_first());
        if c == '&' {
            assert(w.take(5) =~= "&amp;"@);
            assert(w.skip(5) =~= rest);
        } else if c == '<' {
            assert(w.take(4) =~= "&lt;"@);
            assert(w.skip(4) =~= rest);
            assert(w[1] == 'l');
            assert(w.len() >= 5 ==> w.take(5)[1] == 'l');
        } else if c == '>' {
            assert(w.take(4) =~= "&gt;"@);
            assert(w.skip(4) =~= rest);
            assert(w[1] == 'g');
            assert(w.len() >= 5 ==> w.take(5)[1] == 'g');
            assert(w.take(4)[1] == 'g');
        } else if c == '"' {
            assert(w.take(6) =~= "&quot;"@);
            assert(w.skip(6) =~= rest);
            assert(w[1] == 'q');
            assert(w.take(5)[1] == 'q');
            assert(w.take(4)[1] == 'q');
        } else {
            assert(w[0] == c);
            assert(w.skip(1) =~= rest);
            assert(w.len() >= 5 ==> w.take(5)[0] == c);
            assert(w.len() >= 4 ==> w.take(4)[0] == c);
            assert(w.len() >= 6 ==> w.take(6)[0] == c);
        }
    }
}

spec fn unquoted(s: Seq<char>) -> bool {
    forall|i: int| 0 <= i < s.len() ==> #[trigger] s[i] != '"'
}

proof fn lemma_first_piece(a: Seq<char>, rest: Seq<char>)
    requires
        unquoted(a),
    ensures
        text::pieces(a + seq!['"'] + rest, '"') == seq![a] + text::pieces(rest, '"'),
        text::pieces(a, '"') == seq![a],
{
    let s = a + seq!['"'] + rest;
    text::lemma_char_at_or_end(s, '"', 0);
    text::lemma_char_at_or_end(a, '"', 0);
    let n = text::char_at_or_end(s, '"', 0);
    assert(s[a.len() as int] == '"');
    assert(n == a.len()) by {
        if n < a.len() {
            assert(s[n] == a[n]);
        }
    }
    assert(s.take(n) =~= a);
    assert(s.skip(n + 1) =~= rest);
}

proof fn lemma_unquoted_escaped(s: Seq<char>)
    ensures
        unquoted(lsx_writer::escaped(s)),
{
    lsx_writer::law_escaped_is_plain(s);
    assert forall|i: int| 0 <= i < lsx_writer::escaped(s).len() implies #[trigger]
        lsx_writer::escaped(s)[i] != '"' by {
        assert(!lsx_writer::is_markup(lsx_writer::escaped(s)[i]));
    }
}

proof fn lemma_three_pieces(lead: Seq<char>, mid: Seq<char>, tail: Seq<char>)
    requires
        unquoted(lead),
        unquoted(mid),
        unquoted(tail),
    ensures
        text::pieces(lead + seq!['"'] + (mid + seq!['"'] + tail), '"') == seq![lead, mid, tail],
{
    lemma_first_piece(lead, mid + seq!['"'] + tail);
    lemma_first_piece(mid, tail);
    lemma_first_piece(tail, tail);
    assert(seq![lead] + (seq![mid] + seq![tail]) =~= seq![lead, mid, tail]);
}

proof fn lemma_node_item(id: Seq<char>)
    ensures
        item_of(node_tag(id, Seq::empty())) == Item::Open(id),
        item_of(node_tag(id, " /"@)) == Item::Leaf(id),
{
    reveal_strlit("node id=\"");
    reveal_strlit("node id=");
    reveal_strlit("region id=");
    reveal_strlit("\"");
    reveal_strlit(" /");
    reveal_strlit("children");
    reveal_strlit("/children");
    reveal_strlit("/node");
    reveal_strlit("!--");
    let e = lsx_writer::escaped(id);
    lemma_unquoted_escaped(id);
    law_escaped_text_is_read_back(id);
    let none = Seq::<char>::empty();
    lemma_three_pieces("node id="@, e, none);
    lemma_three_pieces("node id="@, e, " /"@);
    let a = node_tag(id, none);
    let b = node_tag(id, " /"@);
    assert(a =~= "node id="@ + seq!['"'] + (e + seq!['"'] + none));
    assert(b =~= "node id="@ + seq!['"'] + (e + seq!['"'] + " /"@));
    assert(a[0] == 'n' && b[0] == 'n');
    assert("children"@[0] == 'c' && "/children"@[0] == '/' && "/node"@[0] == '/' && "!--"@[0] == '!'
        && "region id="@[0] == 'r' && "node id="@[0] == 'n');
    assert(!"!--"@.is_prefix_of(a)) by {
        if "!--"@.is_prefix_of(a) {
            assert(a.subrange(0, 3)[0] == a[0]);
        }
    }
    assert(!"!--"@.is_prefix_of(b)) by {
        if "!--"@.is_prefix_of(b) {
            assert(b.subrange(0, 3)[0] == b[0]);
        }
    }
}

proof fn lemma_seven_pieces(
    id: Seq<char>,
    ty: Seq<char>,
    name: Seq<char>,
    value: Seq<char>,
)
    requires
        unquoted(id),
        unquoted(ty),
        unquoted(name),
        unquoted(value),
    ensures
        ({
            let q = seq!['"'];
            let tag = "attribute id="@ + q + (id + q + (" type="@ + q + (ty + q + (name + q + (value
                + q + " /"@)))));
            text::pieces(tag, '"') == seq![
                "attribute id="@,
                id,
                " type="@,
                ty,
                name,
                value,
                " /"@,
            ]
        }),
{
    reveal_strlit("attribute id=");
    reveal_strlit(" type=");
    reveal_strlit(" /");
    let q = seq!['"'];
    let t6 = " /"@;
    let t5 = value + q + t6;
    let t4 = name + q + t5;
    let t3 = ty + q + t4;
    let t2 = " type="@ + q + t3;
    let t1 = id + q + t2;
    lemma_first_piece("attribute id="@, t1);
    lemma_first_piece(id, t2);
    lemma_first_piece(" type="@, t3);
    lemma_first_piece(ty, t4);
    lemma_first_piece(name, t5);
    lemma_first_piece(value, t6);
    lemma_first_piece(t6, t6);
    assert(seq!["attribute id="@] + (seq![id] + (seq![" type="@] + (seq![ty] + (seq![name] + (
    seq![value] + seq![t6]))))) =~= seq!["attribute id="@, id, " type="@, ty, name, value, " /"@]);
}

proof fn lemma_attribute_item(id: Seq<char>, a: AttributeModel)
    ensures
        item_of(attribute_tag(id, a)) == Item::Attribute(
            id,
            a,
            a.attr_type == "TranslatedString"@ || a.attr_type == "TranslatedFSString"@,
        ),
{
    reveal_strlit("attribute id=\"");
    reveal_strlit("attribute id=");
    reveal_strlit("\" type=\"");
    reveal_strlit(" type=");
    reveal_strlit("\" handle=\"");
    reveal_strlit(" handle=");
    reveal_strlit("\" value=\"");
    reveal_strlit(" value=");
    reveal_strlit("\" /");
    reveal_strlit(" /");
    reveal_strlit("children");
    reveal_strlit("/children");
    reveal_strlit("/node");
    reveal_strlit("!--");
    let i = lsx_writer::escaped(id);
    let t = lsx_writer::escaped(a.attr_type);
    let v = lsx_writer::escaped(a.value);
    let name = if lsx_writer::translated(a.attr_type) {
        " handle="@
    } else {
        " value="@
    };
    lemma_unquoted_escaped(id);
    lemma_unquoted_escaped(a.attr_type);
    lemma_unquoted_escaped(a.value);
    law_escaped_text_is_read_back(id);
    law_escaped_text_is_read_back(a.attr_type);
    law_escaped_text_is_read_back(a.value);
    lemma_seven_pieces(i, t, name, v);
    let q = seq!['"'];
    let tag = attribute_tag(id, a);
    assert(tag =~= "attribute id="@ + q + (i + q + (" type="@ + q + (t + q + (name + q + (v + q
        + " /"@))))));
    assert(tag[0] == 'a');
    assert("children"@[0] == 'c' && "/children"@[0] == '/' && "/node"@[0] == '/' && "!--"@[0]
        == '!');
    assert(!"!--"@.is_prefix_of(tag)) by {
        if "!--"@.is_prefix_of(tag) {
            assert(tag.subrange(0, 3)[0] == tag[0]);
        }
    }
    assert(" handle="@[1] == 'h' && " value="@[1] == 'v');
}

proof fn lemma_fixed_items()
    ensures
        item_of("children"@) == Item::Children,
        item_of("/children"@) == Item::EndChildren,
        item_of("/node"@) == Item::EndNode,
{
    reveal_strlit("children");
    reveal_strlit("/children");
    reveal_strlit("/node");
    assert("children"@[0] == 'c' && "/children"@[0] == '/' && "/node"@[0] == '/');
    assert("/children"@[1] == 'c' && "/node"@[1] == 'n');
}

spec fn said(tags: Seq<Seq<char>>) -> Seq<Item> {
    tags.map_values(|t: Seq<char>| item_of(t))
}

proof fn lemma_said_both(a: Seq<Seq<char>>, b: Seq<Seq<char>>)
    ensures
        said(a + b) == said(a) + said(b),
{
    assert(said(a + b) =~= said(a) + said(b));
}

proof fn lemma_child_said(c: ChildModel, rest: Seq<Item>)
    ensures
        kids_ahead(said(child_tags(c)) + rest) == seq![Kid::Child(c)] + kids_ahead(rest),
{
    lemma_node_item(c.node_id);
    lemma_fixed_items();
    let all = said(child_tags(c)) + rest;
    if c.object_guid.len() == 0 {
        assert(c.object_guid =~= Seq::<char>::empty());
        assert(all[0] == Item::Leaf(c.node_id));
        assert(all.skip(1) =~= rest);
    } else {
        let object = AttributeModel { attr_type: "guid"@, value: c.object_guid };
        lemma_attribute_item("Object"@, object);
        reveal_strlit("attribute id=\"");
        reveal_strlit("attribute id=\"Object\" type=\"guid\" value=\"");
        reveal_strlit("\" type=\"");
        reveal_strlit("\" value=\"");
        reveal_strlit("Object");
        reveal_strlit("guid");
        reveal_strlit("TranslatedString");
        reveal_strlit("TranslatedFSString");
        lemma_plain_text("Object"@);
        lemma_plain_text("guid"@);
        assert("guid"@.len() == 4 && "TranslatedString"@.len() == 16 && "TranslatedFSString"@.len()
            == 18);
        let tag = "attribute id=\"Object\" type=\"guid\" value=\""@ + lsx_writer::escaped(
            c.object_guid,
        ) + "\" /"@;
        assert(tag =~= attribute_tag("Object"@, object));
        assert(all[0] == Item::Open(c.node_id));
        assert(all[1] == item_of(tag));
        assert(all[2] == Item::EndNode);
        assert(all.skip(3) =~= rest);
    }
}

proof fn lemma_plain_text(s: Seq<char>)
    requires
        forall|i: int|
            0 <= i < s.len() ==> #[trigger] s[i] != '&' && s[i] != '<' && s[i] != '>' && s[i] != '"',
    ensures
        lsx_writer::escaped(s) == s,
    decreases s.len(),
{
    if s.len() > 0 {
        let d = s.drop_last();
        assert forall|i: int| 0 <= i < d.len() implies #[trigger] d[i] != '&' && d[i] != '<' && d[i]
            != '>' && d[i] != '"' by {
            assert(d[i] == s[i]);
        }
        lemma_plain_text(d);
        assert(s[s.len() - 1] == s.last());
        assert(d + seq![s.last()] =~= s);
    } else {
        assert(lsx_writer::escaped(s) =~= s);
    }
}

proof fn lemma_children_said(entries: Seq<ChildModel>, rest: Seq<Item>)
    ensures
        kids_ahead(said(joined_tags(entries, |c: ChildModel| child_tags(c))) + rest)
            == entries.map_values(|c: ChildModel| Kid::Child(c)) + kids_ahead(rest),
    decreases entries.len(),
{
    let told = |c: ChildModel| child_tags(c);
    let kid = |c: ChildModel| Kid::Child(c);
    let all = said(joined_tags(entries, told)) + rest;
    if entries.len() == 0 {
        assert(all =~= rest);
        assert(entries.map_values(kid) + kids_ahead(rest) =~= kids_ahead(rest));
    } else {
        let d = entries.drop_last();
        let c = entries.last();
        lemma_said_both(joined_tags(d, told), child_tags(c));
        let more = said(child_tags(c)) + rest;
        assert(all =~= said(joined_tags(d, told)) + more);
        lemma_children_said(d, more);
        lemma_child_said(c, rest);
        assert(entries.map_values(kid) =~= d.map_values(kid) + seq![kid(c)]);
        assert(d.map_values(kid) + (seq![kid(c)] + kids_ahead(rest)) =~= entries.map_values(kid)
            + kids_ahead(rest));
    }
}

proof fn lemma_group_said(g: GroupModel, rest: Seq<Item>)
    ensures
        kids_ahead(said(group_tags(g)) + rest) == kids_of_group(g) + kids_ahead(rest),
{
    let told = |c: ChildModel| child_tags(c);
    let kids = joined_tags(g.entries, told);
    let children = g.entries.map_values(|c: ChildModel| Kid::Child(c));
    lemma_fixed_items();
    lemma_node_item(g.group_id);
    if lsx_writer::is_container(g) {
        let tail = seq![Item::EndChildren, Item::EndNode] + rest;
        let all = said(group_tags(g)) + rest;
        assert(all =~= seq![Item::Open(g.group_id), Item::Children] + (said(kids) + tail));
        assert(all.skip(2) =~= said(kids) + tail);
        lemma_children_said(g.entries, tail);
        assert(tail.skip(2) =~= rest);
        assert(kids_ahead(tail) == seq![Kid::End] + kids_ahead(rest));
        assert(seq![Kid::Group(g.group_id)] + (children + (seq![Kid::End] + kids_ahead(rest)))
            =~= kids_of_group(g) + kids_ahead(rest));
    } else {
        lemma_children_said(g.entries, rest);
    }
}

proof fn lemma_groups_said(groups: Seq<GroupModel>, rest: Seq<Item>)
    ensures
        kids_ahead(said(joined_tags(groups, |g: GroupModel| group_tags(g))) + rest) == kids_of(
            groups,
        ) + kids_ahead(rest),
    decreases groups.len(),
{
    let told = |g: GroupModel| group_tags(g);
    let all = said(joined_tags(groups, told)) + rest;
    if groups.len() == 0 {
        assert(all =~= rest);
        assert(kids_of(groups) + kids_ahead(rest) =~= kids_ahead(rest));
    } else {
        let d = groups.drop_last();
        let g = groups.last();
        lemma_said_both(joined_tags(d, told), group_tags(g));
        let more = said(group_tags(g)) + rest;
        assert(all =~= said(joined_tags(d, told)) + more);
        lemma_groups_said(d, more);
        lemma_group_said(g, rest);
        assert(kids_of(d) + (kids_of_group(g) + kids_ahead(rest)) =~= kids_of(groups) + kids_ahead(
            rest,
        ));
    }
}

proof fn lemma_attributes_said(
    attrs: Seq<(Seq<char>, AttributeModel)>,
    rest: Seq<Item>,
)
    requires
        rest.len() == 0 || !(rest[0] is Attribute),
    ensures
        ({
            let tags = joined_tags(
                attrs,
                |p: (Seq<char>, AttributeModel)| seq![attribute_tag(p.0, p.1)],
            );
            &&& tags.len() == attrs.len()
            &&& attributes_ahead(said(tags) + rest) == attrs.len()
            &&& forall|i: int|
                0 <= i < attrs.len() ==> #[trigger] said(tags)[i] == Item::Attribute(
                    attrs[i].0,
                    attrs[i].1,
                    attrs[i].1.attr_type == "TranslatedString"@ || attrs[i].1.attr_type
                        == "TranslatedFSString"@,
                )
        }),
{
    let told = |p: (Seq<char>, AttributeModel)| seq![attribute_tag(p.0, p.1)];
    let tags = joined_tags(attrs, told);
    lemma_single_tags(attrs);
    assert forall|i: int| 0 <= i < attrs.len() implies #[trigger] said(tags)[i] == Item::Attribute(
        attrs[i].0,
        attrs[i].1,
        attrs[i].1.attr_type == "TranslatedString"@ || attrs[i].1.attr_type
            == "TranslatedFSString"@,
    ) by {
        lemma_attribute_item(attrs[i].0, attrs[i].1);
        assert(tags[i] == attribute_tag(attrs[i].0, attrs[i].1));
    }
    lemma_count_ahead(said(tags), rest);
}

proof fn lemma_single_tags(attrs: Seq<(Seq<char>, AttributeModel)>)
    ensures
        ({
            let tags = joined_tags(
                attrs,
                |p: (Seq<char>, AttributeModel)| seq![attribute_tag(p.0, p.1)],
            );
            &&& tags.len() == attrs.len()
            &&& forall|i: int|
                0 <= i < attrs.len() ==> #[trigger] tags[i] == attribute_tag(
                    attrs[i].0,
                    attrs[i].1,
                )
        }),
    decreases attrs.len(),
{
    if attrs.len() > 0 {
        lemma_single_tags(attrs.drop_last());
    }
}

proof fn lemma_count_ahead(a: Seq<Item>, rest: Seq<Item>)
    requires
        forall|i: int| 0 <= i < a.len() ==> (#[trigger] a[i]) is Attribute,
        rest.len() == 0 || !(rest[0] is Attribute),
    ensures
        attributes_ahead(a + rest) == a.len(),
    decreases a.len(),
{
    if a.len() == 0 {
        assert(a + rest =~= rest);
    } else {
        let b = a.skip(1);
        assert forall|i: int| 0 <= i < b.len() implies (#[trigger] b[i]) is Attribute by {
            assert(b[i] == a[i + 1]);
        }
        lemma_count_ahead(b, rest);
        assert((a + rest)[0] == a[0]);
        assert((a + rest).skip(1) =~= b + rest);
    }
}

proof fn lemma_entry_said(e: EntryModel)
    requires
        textmap::distinct(e.attributes),
    ensures
        reads_as(entry_read(said(entry_tags(e))), e),
{
    let order = lsx_writer::written_order(e.attributes);
    let told = |p: (Seq<char>, AttributeModel)| seq![attribute_tag(p.0, p.1)];
    let attrs = joined_tags(order, told);
    let items = said(entry_tags(e));
    lemma_node_item(e.node_id);
    lemma_fixed_items();
    lsx_writer::law_attributes_written_in_order(e.attributes);
    let head = seq![Item::Open(e.node_id)];
    let end = seq![Item::EndNode];
    let groups = joined_tags(e.children, |g: GroupModel| group_tags(g));
    let close = seq![Item::EndChildren, Item::EndNode];
    let rest = if e.children.len() > 0 {
        seq![Item::Children] + (said(groups) + close)
    } else {
        end
    };
    assert(items =~= head + (said(attrs) + rest));
    lemma_attributes_said(order, rest);
    assert(items.skip(1) =~= said(attrs) + rest);
    let n = order.len();
    assert(items.skip(1 + n as int) =~= rest);
    let r = entry_read(items)->0;
    assert(items.last() is EndNode);
    assert forall|i: int| 0 <= i < n implies #[trigger] items[1 + i] == Item::Attribute(
        order[i].0,
        order[i].1,
        order[i].1.attr_type == "TranslatedString"@ || order[i].1.attr_type
            == "TranslatedFSString"@,
    ) by {
        assert(items[1 + i] == said(attrs)[i]);
    }
    assert(r.attributes =~= order);
    if e.children.len() > 0 {
        assert(rest.skip(1) =~= said(groups) + close);
        lemma_groups_said(e.children, close);
        let none = close.skip(2);
        assert(none.len() == 0);
        assert(kids_ahead(close) =~= seq![Kid::End] + kids_ahead(none));
        assert(kids_ahead(none) =~= Seq::<Kid>::empty());
        assert(kids_of(e.children) + kids_ahead(close) =~= kids_of(e.children).push(Kid::End));
    }
    assert forall|i: int, j: int| 0 <= i < j < r.attributes.len() implies written_before(
        (#[trigger] r.attributes[i]).0,
        (#[trigger] r.attributes[j]).0,
    ) by {
        assert(lsx_writer::name_before(order[i].0, order[j].0));
    }
}

/// What is written of an entry is read back as it is: nothing is lost, and nothing is
/// added. Its attributes stand in their order, and each child of each group stands in
/// its place, with its node and its object.
pub proof fn law_written_entry_is_read_back(e: EntryModel, indent: nat)
    requires
        textmap::distinct(e.attributes),
    ensures
        reads_as(entry_read(items_in(lsx_writer::entry_xml(e, indent))), e),
{
    lemma_entry_tags(Seq::empty(), indent, e);
    assert(Seq::<Seq<char>>::empty() + entry_tags(e) =~= entry_tags(e));
    assert(items_in(lsx_writer::entry_xml(e, indent)) =~= said(entry_tags(e)));
    lemma_entry_said(e);
}

// ---------------------------------------------------------------------------
// Files
// ---------------------------------------------------------------------------

/// What is read of a file: its region, and what each node below the root says, and
/// whether it stands in a comment.
pub struct FileRead {
    pub region: Option<Seq<char>>,
    /// The number of nodes that are open.
    pub depth: int,
    /// Whether a comment began.
    pub commented: bool,
    pub nodes: Seq<(bool, Seq<Item>)>,
}

/// The nodes with one more item in the last one.
pub open spec fn with_item(nodes: Seq<(bool, Seq<Item>)>, item: Item) -> Seq<(bool, Seq<Item>)> {
    if nodes.len() == 0 {
        nodes
    } else {
        nodes.drop_last().push((nodes.last().0, nodes.last().1.push(item)))
    }
}

/// What is read after one more item.
pub open spec fn file_step(st: FileRead, item: Item) -> FileRead {
    let inner = if st.depth >= 2 {
        with_item(st.nodes, item)
    } else {
        st.nodes
    };
    match item {
        Item::Open(id) => if st.depth == 1 {
            FileRead {
                depth: 2,
                commented: false,
                nodes: st.nodes.push((st.commented, seq![item])),
                ..st
            }
        } else {
            FileRead { depth: st.depth + 1, nodes: inner, ..st }
        },
        Item::EndNode => FileRead { depth: st.depth - 1, nodes: inner, ..st },
        Item::Region(id) => FileRead { region: Some(id), ..st },
        Item::Comment => FileRead { commented: true, ..st },
        _ => FileRead { nodes: inner, ..st },
    }
}

/// What is read after items.
pub open spec fn file_steps(st: FileRead, items: Seq<Item>) -> FileRead
    decreases items.len(),
{
    if items.len() == 0 {
        st
    } else {
        file_step(file_steps(st, items.drop_last()), items.last())
    }
}

/// What is read of a file.
pub open spec fn file_read(s: Seq<char>) -> FileRead {
    file_steps(
        FileRead { region: None, depth: 0, commented: false, nodes: Seq::empty() },
        items_in(s),
    )
}

proof fn lemma_steps_both(st: FileRead, a: Seq<Item>, b: Seq<Item>)
    ensures
        file_steps(st, a + b) == file_steps(file_steps(st, a), b),
    decreases b.len(),
{
    if b.len() == 0 {
        assert(a + b =~= a);
    } else {
        lemma_steps_both(st, a, b.drop_last());
        assert((a + b).drop_last() =~= a + b.drop_last());
        assert((a + b).last() == b.last());
    }
}

proof fn lemma_steps_one(st: FileRead, x: Item)
    ensures
        file_steps(st, seq![x]) == file_step(st, x),
{
    assert(seq![x].drop_last() =~= Seq::<Item>::empty());
    reveal_with_fuel(file_steps, 2);
}

spec fn depth_after(d: int, items: Seq<Item>) -> int
    decreases items.len(),
{
    if items.len() == 0 {
        d
    } else {
        depth_after(d, items.drop_last()) + (if items.last() is Open {
            1int
        } else if items.last() is EndNode {
            -1
        } else {
            0
        })
    }
}

spec fn stays_inside(d: int, items: Seq<Item>) -> bool
    decreases items.len(),
{
    if items.len() == 0 {
        true
    } else {
        &&& stays_inside(d, items.drop_last())
        &&& depth_after(d, items) >= 2
        &&& !(items.last() is Comment)
        &&& !(items.last() is Region)
    }
}

/// Whether items close what they open and nothing else.
spec fn balanced(items: Seq<Item>) -> bool {
    forall|d: int| d >= 2 ==> #[trigger] stays_inside(d, items) && depth_after(d, items) == d
}

proof fn lemma_inside_both(d: int, a: Seq<Item>, b: Seq<Item>)
    ensures
        depth_after(d, a + b) == depth_after(depth_after(d, a), b),
        stays_inside(d, a + b) == (stays_inside(d, a) && stays_inside(depth_after(d, a), b)),
    decreases b.len(),
{
    if b.len() == 0 {
        assert(a + b =~= a);
    } else {
        lemma_inside_both(d, a, b.drop_last());
        assert((a + b).drop_last() =~= a + b.drop_last());
        assert((a + b).last() == b.last());
    }
}

proof fn lemma_balanced_both(a: Seq<Item>, b: Seq<Item>)
    requires
        balanced(a),
        balanced(b),
    ensures
        balanced(a + b),
{
    assert forall|d: int| d >= 2 implies #[trigger] stays_inside(d, a + b) && depth_after(d, a + b)
        == d by {
        lemma_inside_both(d, a, b);
        assert(stays_inside(d, a));
        assert(stays_inside(d, b));
    }
}

proof fn lemma_inside_one(d: int, x: Item)
    ensures
        depth_after(d, seq![x]) == d + (if x is Open {
            1int
        } else if x is EndNode {
            -1
        } else {
            0
        }),
        stays_inside(d, seq![x]) == (depth_after(d, seq![x]) >= 2 && !(x is Comment) && !(
        x is Region)),
{
    assert(seq![x].drop_last() =~= Seq::<Item>::empty());
    reveal_with_fuel(depth_after, 2);
    reveal_with_fuel(stays_inside, 2);
}

proof fn lemma_balanced_one(x: Item)
    requires
        x is Leaf || x is Attribute || x is Children || x is EndChildren,
    ensures
        balanced(seq![x]),
{
    let s = seq![x];
    assert forall|d: int| d >= 2 implies #[trigger] stays_inside(d, s) && depth_after(d, s) == d by {
        lemma_inside_one(d, x);
    }
    assert(balanced(s));
}

proof fn lemma_balanced_node(id: Seq<char>, a: Seq<Item>)
    requires
        balanced(a),
    ensures
        balanced(seq![Item::Open(id)] + a + seq![Item::EndNode]),
{
    let o = seq![Item::Open(id)];
    let c = seq![Item::EndNode];
    let s = o + a + c;
    assert forall|d: int| d >= 2 implies #[trigger] stays_inside(d, s) && depth_after(d, s) == d by {
        lemma_inside_one(d, Item::Open(id));
        lemma_inside_both(d, o, a);
        lemma_inside_both(d, o + a, c);
        lemma_inside_one(d + 1, Item::EndNode);
        assert(stays_inside(d + 1, a));
    }
    assert(balanced(s));
}

/// Items inside a node are all taken into it.
proof fn lemma_grows(st: FileRead, items: Seq<Item>)
    requires
        st.depth >= 2,
        st.nodes.len() > 0,
        stays_inside(st.depth, items),
    ensures
        file_steps(st, items) == (FileRead {
            depth: depth_after(st.depth, items),
            nodes: st.nodes.drop_last().push((st.nodes.last().0, st.nodes.last().1 + items)),
            ..st
        }),
    decreases items.len(),
{
    if items.len() == 0 {
        assert(st.nodes.last().1 + items =~= st.nodes.last().1);
        assert(st.nodes.drop_last().push(st.nodes.last()) =~= st.nodes);
    } else {
        let d = items.drop_last();
        lemma_grows(st, d);
        let before = file_steps(st, d);
        lemma_depth_inside(st.depth, d);
        assert(before.nodes.drop_last() =~= st.nodes.drop_last());
        assert((st.nodes.last().1 + d).push(items.last()) =~= st.nodes.last().1 + items);
        assert(with_item(before.nodes, items.last()) =~= st.nodes.drop_last().push(
            (st.nodes.last().0, st.nodes.last().1 + items),
        ));
    }
}

proof fn lemma_depth_inside(d: int, items: Seq<Item>)
    requires
        d >= 2,
        stays_inside(d, items),
    ensures
        depth_after(d, items) >= 2,
{
}

proof fn lemma_child_balanced(c: ChildModel)
    ensures
        balanced(said(child_tags(c))),
{
    lemma_node_item(c.node_id);
    lemma_fixed_items();
    let items = said(child_tags(c));
    if c.object_guid.len() == 0 {
        lemma_balanced_one(items[0]);
        assert(items =~= seq![items[0]]);
    } else {
        lemma_child_said(c, Seq::empty());
        assert(items + Seq::<Item>::empty() =~= items);
        let x = items[1];
        lemma_object_item(c);
        lemma_balanced_one(x);
        lemma_balanced_node(c.node_id, seq![x]);
        assert(items =~= seq![Item::Open(c.node_id)] + seq![x] + seq![Item::EndNode]);
    }
}

proof fn lemma_object_item(c: ChildModel)
    requires
        c.object_guid.len() > 0,
    ensures
        said(child_tags(c))[1] is Attribute,
{
    let object = AttributeModel { attr_type: "guid"@, value: c.object_guid };
    lemma_attribute_item("Object"@, object);
    reveal_strlit("attribute id=\"");
    reveal_strlit("attribute id=\"Object\" type=\"guid\" value=\"");
    reveal_strlit("\" type=\"");
    reveal_strlit("\" value=\"");
    reveal_strlit("Object");
    reveal_strlit("guid");
    reveal_strlit("TranslatedString");
    reveal_strlit("TranslatedFSString");
    lemma_plain_text("Object"@);
    lemma_plain_text("guid"@);
    assert("guid"@.len() == 4 && "TranslatedString"@.len() == 16 && "TranslatedFSString"@.len()
        == 18);
    let tag = "attribute id=\"Object\" type=\"guid\" value=\""@ + lsx_writer::escaped(
        c.object_guid,
    ) + "\" /"@;
    assert(tag =~= attribute_tag("Object"@, object));
    assert(said(child_tags(c))[1] == item_of(tag));
}

proof fn lemma_joined_balanced<T>(s: Seq<T>, told: spec_fn(T) -> Seq<Seq<char>>)
    requires
        forall|i: int| 0 <= i < s.len() ==> balanced(said(told(#[trigger] s[i]))),
    ensures
        balanced(said(joined_tags(s, told))),
    decreases s.len(),
{
    if s.len() > 0 {
        let d = s.drop_last();
        assert forall|i: int| 0 <= i < d.len() implies balanced(said(told(#[trigger] d[i]))) by {
            assert(d[i] == s[i]);
        }
        lemma_joined_balanced(d, told);
        assert(balanced(said(told(s[s.len() - 1]))));
        lemma_said_both(joined_tags(d, told), told(s.last()));
        lemma_balanced_both(said(joined_tags(d, told)), said(told(s.last())));
    } else {
        assert(said(joined_tags(s, told)) =~= Seq::<Item>::empty());
    }
}

proof fn lemma_group_balanced(g: GroupModel)
    ensures
        balanced(said(group_tags(g))),
{
    let told = |c: ChildModel| child_tags(c);
    let kids = said(joined_tags(g.entries, told));
    assert forall|i: int| 0 <= i < g.entries.len() implies balanced(
        said(told(#[trigger] g.entries[i])),
    ) by {
        lemma_child_balanced(g.entries[i]);
    }
    lemma_joined_balanced(g.entries, told);
    if lsx_writer::is_container(g) {
        lemma_node_item(g.group_id);
        lemma_fixed_items();
        lemma_in_children(kids);
        let inner = seq![Item::Children] + kids + seq![Item::EndChildren];
        lemma_balanced_node(g.group_id, inner);
        assert(said(group_tags(g)) =~= seq![Item::Open(g.group_id)] + inner + seq![Item::EndNode]);
    }
}

proof fn lemma_in_children(a: Seq<Item>)
    requires
        balanced(a),
    ensures
        balanced(seq![Item::Children] + a + seq![Item::EndChildren]),
{
    lemma_balanced_one(Item::Children);
    lemma_balanced_one(Item::EndChildren);
    lemma_balanced_both(seq![Item::Children], a);
    lemma_balanced_both(seq![Item::Children] + a, seq![Item::EndChildren]);
}

spec fn inner_items(e: EntryModel) -> Seq<Item> {
    said(entry_tags(e)).subrange(1, said(entry_tags(e)).len() - 1)
}

proof fn lemma_entry_inner(e: EntryModel)
    ensures
        balanced(inner_items(e)),
        said(entry_tags(e)) == seq![Item::Open(e.node_id)] + inner_items(e) + seq![Item::EndNode],
{
    let order = lsx_writer::written_order(e.attributes);
    let told = |p: (Seq<char>, AttributeModel)| seq![attribute_tag(p.0, p.1)];
    let attrs = said(joined_tags(order, told));
    let group_told = |g: GroupModel| group_tags(g);
    let groups = said(joined_tags(e.children, group_told));
    lemma_node_item(e.node_id);
    lemma_fixed_items();
    assert forall|i: int| 0 <= i < order.len() implies balanced(said(told(#[trigger] order[i]))) by {
        lemma_attribute_item(order[i].0, order[i].1);
        let x = item_of(attribute_tag(order[i].0, order[i].1));
        lemma_balanced_one(x);
        assert(said(told(order[i])) =~= seq![x]);
    }
    lemma_joined_balanced(order, told);
    assert forall|i: int| 0 <= i < e.children.len() implies balanced(
        said(group_told(#[trigger] e.children[i])),
    ) by {
        lemma_group_balanced(e.children[i]);
    }
    lemma_joined_balanced(e.children, group_told);
    lemma_in_children(groups);
    let kids = if e.children.len() > 0 {
        seq![Item::Children] + groups + seq![Item::EndChildren]
    } else {
        Seq::empty()
    };
    assert(balanced(kids)) by {
        if e.children.len() == 0 {
            assert(said(joined_tags(e.children, group_told)) =~= kids);
        }
    }
    lemma_balanced_both(attrs, kids);
    let all = said(entry_tags(e));
    assert(all =~= seq![Item::Open(e.node_id)] + (attrs + kids) + seq![Item::EndNode]);
    assert(inner_items(e) =~= attrs + kids);
}

proof fn lemma_entry_steps(st: FileRead, e: EntryModel)
    requires
        st.depth == 1,
    ensures
        file_steps(st, said(entry_tags(e))) == (FileRead {
            commented: false,
            nodes: st.nodes.push((st.commented, said(entry_tags(e)))),
            ..st
        }),
{
    let o = seq![Item::Open(e.node_id)];
    let c = seq![Item::EndNode];
    let inner = inner_items(e);
    lemma_entry_inner(e);
    lemma_steps_both(st, o + inner, c);
    lemma_steps_both(st, o, inner);
    lemma_steps_one(st, Item::Open(e.node_id));
    let s1 = file_step(st, Item::Open(e.node_id));
    assert(stays_inside(2, inner));
    lemma_grows(s1, inner);
    let s2 = file_steps(s1, inner);
    lemma_steps_one(s2, Item::EndNode);
    assert(s1.nodes.drop_last() =~= st.nodes);
    assert(s2.nodes =~= st.nodes.push((st.commented, o + inner)));
    assert(s2.nodes.drop_last() =~= st.nodes);
    assert((o + inner).push(Item::EndNode) =~= o + inner + c);
    assert(with_item(s2.nodes, Item::EndNode) =~= st.nodes.push(
        (st.commented, said(entry_tags(e))),
    ));
}

spec fn top_tags(e: EntryModel) -> Seq<Seq<char>> {
    if e.commented {
        seq!["!--\n"@ + text::spaces(10)] + entry_tags(e)
    } else {
        entry_tags(e)
    }
}

proof fn lemma_top_tags(tags: Seq<Seq<char>>, e: EntryModel)
    ensures
        scan(outside(tags), lsx_writer::entry_writer()(e)) == outside(tags + top_tags(e)),
{
    if e.commented {
        reveal_strlit("<!--\n");
        reveal_strlit("!--\n");
        reveal_strlit("-->\n");
        reveal_strlit("<node id=\"");
        let pad = text::spaces(8);
        let body = lsx_writer::entry_xml(e, 10);
        let inner = text::spaces(10);
        let st = outside(tags);
        lemma_plain_spaces(8);
        lemma_plain_spaces(10);
        let start = pad + "<!--\n"@;
        let end = pad + "-->\n"@;
        assert(lsx_writer::commented_xml(e, 8) =~= start + body + end);
        lemma_scan_both(st, start + body, end);
        lemma_scan_both(st, start, body);
        assert(start =~= pad + seq!['<'] + "!--\n"@);
        lemma_scan_both(st, pad + seq!['<'], "!--\n"@);
        lemma_scan_both(st, pad, seq!['<']);
        lemma_scan_plain(st, pad);
        lemma_scan_one(st, '<');
        let opened = TagScan { tags, open: Some(Seq::empty()) };
        lemma_scan_plain(opened, "!--\n"@);
        assert(Seq::<char>::empty() + "!--\n"@ =~= "!--\n"@);
        let held = TagScan { tags, open: Some("!--\n"@) };
        let note = "!--\n"@ + inner;
        let after = body.skip(10);
        assert(body.len() > 10 && body[10] == '<');
        assert(body =~= inner + after);
        assert(after =~= seq!['<'] + after.skip(1));
        lemma_scan_both(held, inner, after);
        lemma_scan_plain(held, inner);
        let full = TagScan { tags, open: Some(note) };
        lemma_scan_both(full, seq!['<'], after.skip(1));
        lemma_scan_one(full, '<');
        let out = outside(tags.push(note));
        lemma_scan_both(out, inner, after);
        lemma_scan_plain(out, inner);
        lemma_scan_both(out, seq!['<'], after.skip(1));
        lemma_scan_one(out, '<');
        lemma_entry_tags(tags.push(note), 10, e);
        let done = tags.push(note) + entry_tags(e);
        assert(done =~= tags + top_tags(e));
        lemma_scan_outside(done, end);
    } else {
        lemma_entry_tags(tags, 8, e);
    }
}

proof fn lemma_scan_outside(tags: Seq<Seq<char>>, s: Seq<char>)
    requires
        forall|i: int| 0 <= i < s.len() ==> #[trigger] s[i] != '<',
    ensures
        scan(outside(tags), s) == outside(tags),
    decreases s.len(),
{
    if s.len() > 0 {
        let d = s.drop_last();
        assert forall|i: int| 0 <= i < d.len() implies #[trigger] d[i] != '<' by {
            assert(d[i] == s[i]);
        }
        lemma_scan_outside(tags, d);
        assert(s[s.len() - 1] == s.last());
    }
}

proof fn lemma_comment_item(n: nat)
    ensures
        item_of("!--\n"@ + text::spaces(n)) == Item::Comment,
{
    reveal_strlit("!--\n");
    reveal_strlit("!--");
    reveal_strlit("children");
    reveal_strlit("/children");
    reveal_strlit("/node");
    let tag = "!--\n"@ + text::spaces(n);
    assert(tag[0] == '!');
    assert("children"@[0] == 'c' && "/children"@[0] == '/' && "/node"@[0] == '/');
    assert(tag.subrange(0, 3) =~= "!--"@);
}

proof fn lemma_top_steps(st: FileRead, e: EntryModel)
    requires
        st.depth == 1,
        !st.commented,
    ensures
        file_steps(st, said(top_tags(e))) == (FileRead {
            nodes: st.nodes.push((e.commented, said(entry_tags(e)))),
            ..st
        }),
{
    if e.commented {
        let note = "!--\n"@ + text::spaces(10);
        lemma_comment_item(10);
        lemma_said_both(seq![note], entry_tags(e));
        assert(said(seq![note]) =~= seq![Item::Comment]);
        lemma_steps_both(st, seq![Item::Comment], said(entry_tags(e)));
        lemma_steps_one(st, Item::Comment);
        lemma_entry_steps(FileRead { commented: true, ..st }, e);
    } else {
        lemma_entry_steps(st, e);
    }
}

spec fn read_nodes(entries: Seq<EntryModel>) -> Seq<(bool, Seq<Item>)> {
    entries.map_values(|e: EntryModel| (e.commented, said(entry_tags(e))))
}

proof fn lemma_entries_steps(st: FileRead, entries: Seq<EntryModel>)
    requires
        st.depth == 1,
        !st.commented,
    ensures
        file_steps(st, said(joined_tags(entries, |e: EntryModel| top_tags(e)))) == (FileRead {
            nodes: st.nodes + read_nodes(entries),
            ..st
        }),
    decreases entries.len(),
{
    let told = |e: EntryModel| top_tags(e);
    if entries.len() == 0 {
        assert(said(joined_tags(entries, told)) =~= Seq::<Item>::empty());
        assert(st.nodes + read_nodes(entries) =~= st.nodes);
    } else {
        let d = entries.drop_last();
        lemma_entries_steps(st, d);
        lemma_said_both(joined_tags(d, told), top_tags(entries.last()));
        lemma_steps_both(st, said(joined_tags(d, told)), said(top_tags(entries.last())));
        lemma_top_steps(FileRead { nodes: st.nodes + read_nodes(d), ..st }, entries.last());
        assert((st.nodes + read_nodes(d)).push(
            (entries.last().commented, said(entry_tags(entries.last()))),
        ) =~= st.nodes + read_nodes(entries));
    }
}

proof fn lemma_other_item(tag: Seq<char>)
    requires
        tag.len() > 0,
        tag[0] == '?' || tag[0] == 's' || tag[0] == 'v' || (tag[0] == '/' && tag.len() > 1 && (tag[1]
            == 'r' || tag[1] == 's')),
    ensures
        item_of(tag) is Other,
{
    reveal_strlit("children");
    reveal_strlit("/children");
    reveal_strlit("/node");
    reveal_strlit("!--");
    reveal_strlit("region id=");
    reveal_strlit("node id=");
    reveal_strlit("attribute id=");
    assert("children"@[0] == 'c' && "/children"@[1] == 'c' && "/node"@[1] == 'n' && "/children"@[0]
        == '/' && "/node"@[0] == '/' && "!--"@[0] == '!');
    assert("region id="@[0] == 'r' && "node id="@[0] == 'n' && "attribute id="@[0] == 'a');
    assert(!"!--"@.is_prefix_of(tag)) by {
        if "!--"@.is_prefix_of(tag) {
            assert(tag.subrange(0, 3)[0] == tag[0]);
        }
    }
    text::lemma_char_at_or_end(tag, '"', 0);
    let n = text::char_at_or_end(tag, '"', 0);
    let p = text::pieces(tag, '"');
    assert(p[0] == tag.take(n) || p[0] == tag);
    assert(p[0].len() > 0 ==> p[0][0] == tag[0]);
}

proof fn lemma_region_tag(tags: Seq<Seq<char>>, id: Seq<char>)
    ensures
        ({
            let tag = "region id=\""@ + lsx_writer::escaped(id) + "\""@;
            &&& scan(
                outside(tags),
                "  <region id=\""@ + lsx_writer::escaped(id) + "\">\n"@,
            ) == outside(tags.push(tag))
            &&& item_of(tag) == Item::Region(id)
        }),
{
    reveal_strlit("  <region id=\"");
    reveal_strlit("region id=\"");
    reveal_strlit("region id=");
    reveal_strlit("\">\n");
    reveal_strlit("\"");
    reveal_strlit("children");
    reveal_strlit("/children");
    reveal_strlit("/node");
    reveal_strlit("!--");
    let e = lsx_writer::escaped(id);
    let tag = "region id=\""@ + e + "\""@;
    lemma_plain_escaped(id);
    lemma_unquoted_escaped(id);
    law_escaped_text_is_read_back(id);
    assert(plain(tag));
    let pad = seq![' ', ' '];
    lemma_scan_tag(tags, pad, tag, seq!['\n']);
    assert("  <region id=\""@ + e + "\">\n"@ =~= pad + seq!['<'] + tag + seq!['>'] + seq!['\n']);
    let none = Seq::<char>::empty();
    lemma_three_pieces("region id="@, e, none);
    assert(tag =~= "region id="@ + seq!['"'] + (e + seq!['"'] + none));
    assert(tag[0] == 'r');
    assert("children"@[0] == 'c' && "/children"@[0] == '/' && "/node"@[0] == '/' && "!--"@[0]
        == '!');
    assert(!"!--"@.is_prefix_of(tag)) by {
        if "!--"@.is_prefix_of(tag) {
            assert(tag.subrange(0, 3)[0] == tag[0]);
        }
    }
}

proof fn lemma_line(tags: Seq<Seq<char>>, line: Seq<char>, n: nat)
    requires
        line.len() >= n + 3,
        forall|i: int| 0 <= i < line.len() ==> (#[trigger] line[i] == '<' <==> i == n),
        forall|i: int| 0 <= i < line.len() ==> (#[trigger] line[i] == '>' <==> i == line.len() - 2),
    ensures
        scan(outside(tags), line) == outside(
            tags.push(line.subrange(n as int + 1, line.len() - 2)),
        ),
{
    let pad = line.take(n as int);
    let body = line.subrange(n as int + 1, line.len() - 2);
    let tail = line.skip(line.len() - 1);
    lemma_scan_tag(tags, pad, body, tail);
    assert(line =~= pad + seq!['<'] + body + seq!['>'] + tail);
}

spec fn head_items(region_id: Seq<char>) -> Seq<Item> {
    seq![
        Item::Other,
        Item::Other,
        Item::Other,
        Item::Region(region_id),
        Item::Open("root"@),
        Item::Children,
    ]
}

spec fn head_text(region_id: Seq<char>) -> Seq<char> {
    "<?xml version=\"1.0\" encoding=\"utf-8\"?>\n"@ + "<save>\n"@
        + "  <version major=\"4\" minor=\"0\" revision=\"0\" build=\"49\" />\n"@ + (
    "  <region id=\""@ + lsx_writer::escaped(region_id) + "\">\n"@) + "    <node id=\"root\">\n"@
        + "      <children>\n"@
}

proof fn lemma_head(region_id: Seq<char>)
    ensures
        ({
            let r = scan(outside(Seq::empty()), head_text(region_id));
            r.open is None && said(r.tags) == head_items(region_id)
        }),
{
    reveal_strlit("<?xml version=\"1.0\" encoding=\"utf-8\"?>\n");
    reveal_strlit("<save>\n");
    reveal_strlit("  <version major=\"4\" minor=\"0\" revision=\"0\" build=\"49\" />\n");
    reveal_strlit("    <node id=\"root\">\n");
    reveal_strlit("      <children>\n");
    let a = "<?xml version=\"1.0\" encoding=\"utf-8\"?>\n"@;
    let b = "<save>\n"@;
    let c = "  <version major=\"4\" minor=\"0\" revision=\"0\" build=\"49\" />\n"@;
    let d = "  <region id=\""@ + lsx_writer::escaped(region_id) + "\">\n"@;
    let e = "    <node id=\"root\">\n"@;
    let f = "      <children>\n"@;
    let st = outside(Seq::empty());
    let ta = a.subrange(1, a.len() - 2);
    let tb = b.subrange(1, b.len() - 2);
    let tc = c.subrange(3, c.len() - 2);
    let td = "region id=\""@ + lsx_writer::escaped(region_id) + "\""@;
    let te = node_tag("root"@, Seq::empty());
    let tf = "children"@;
    let t1 = Seq::<Seq<char>>::empty().push(ta);
    let t2 = t1.push(tb);
    let t3 = t2.push(tc);
    let t4 = t3.push(td);
    let t5 = t4.push(te);
    lemma_line(Seq::empty(), a, 0);
    lemma_line(t1, b, 0);
    lemma_line(t2, c, 2);
    lemma_region_tag(t3, region_id);
    lemma_root_tag(t4);
    lemma_fixed_tags(t5, 6);
    reveal_strlit("<children>\n");
    assert(f =~= text::spaces(6) + "<children>\n"@);
    lemma_scan_both(st, a + b + c + d + e, f);
    lemma_scan_both(st, a + b + c + d, e);
    lemma_scan_both(st, a + b + c, d);
    lemma_scan_both(st, a + b, c);
    lemma_scan_both(st, a, b);
    assert(ta[0] == '?');
    assert(tb[0] == 's');
    assert(tc[0] == 'v');
    lemma_other_item(ta);
    lemma_other_item(tb);
    lemma_other_item(tc);
    lemma_node_item("root"@);
    lemma_fixed_items();
    assert(said(t5.push(tf)) =~= head_items(region_id));
}

proof fn lemma_root_tag(tags: Seq<Seq<char>>)
    ensures
        scan(outside(tags), "    <node id=\"root\">\n"@) == outside(
            tags.push(node_tag("root"@, Seq::empty())),
        ),
{
    reveal_strlit("    <node id=\"root\">\n");
    reveal_strlit("<node id=\"");
    reveal_strlit("root");
    reveal_strlit("\">\n");
    lemma_plain_text("root"@);
    lemma_node_tag(tags, 4, "root"@);
    assert("    <node id=\"root\">\n"@ =~= text::spaces(4) + "<node id=\""@ + lsx_writer::escaped(
        "root"@,
    ) + "\">\n"@);
}

spec fn foot_text() -> Seq<char> {
    "      </children>\n"@ + "    </node>\n"@ + "  </region>\n"@ + "</save>\n"@
}

proof fn lemma_foot(tags: Seq<Seq<char>>)
    ensures
        ({
            let r = scan(outside(tags), foot_text());
            said(r.tags) == said(tags) + seq![
                Item::EndChildren,
                Item::EndNode,
                Item::Other,
                Item::Other,
            ]
        }),
{
    reveal_strlit("      </children>\n");
    reveal_strlit("</children>\n");
    reveal_strlit("    </node>\n");
    reveal_strlit("</node>\n");
    reveal_strlit("  </region>\n");
    reveal_strlit("</save>\n");
    let a = "      </children>\n"@;
    let b = "    </node>\n"@;
    let c = "  </region>\n"@;
    let d = "</save>\n"@;
    assert(a =~= text::spaces(6) + "</children>\n"@);
    assert(b =~= text::spaces(4) + "</node>\n"@);
    let st = outside(tags);
    let t1 = tags.push("/children"@);
    let t2 = t1.push("/node"@);
    let tc = c.subrange(3, c.len() - 2);
    let td = d.subrange(1, d.len() - 2);
    let t3 = t2.push(tc);
    lemma_fixed_tags(tags, 6);
    lemma_fixed_tags(t1, 4);
    lemma_line(t2, c, 2);
    lemma_line(t3, d, 0);
    lemma_scan_both(st, a + b + c, d);
    lemma_scan_both(st, a + b, c);
    lemma_scan_both(st, a, b);
    lemma_fixed_items();
    assert(tc[0] == '/' && tc[1] == 'r');
    assert(td[0] == '/' && td[1] == 's');
    lemma_other_item(tc);
    lemma_other_item(td);
    assert(said(t3.push(td)) =~= said(tags) + seq![
        Item::EndChildren,
        Item::EndNode,
        Item::Other,
        Item::Other,
    ]);
}

/// What is written of entries is read back as it is: the region of the file, and below
/// its root each entry once and in order, in a comment where it is commented, with all
/// that it has.
pub proof fn law_written_file_is_read_back(entries: Seq<EntryModel>, region_id: Seq<char>)
    requires
        forall|i: int|
            0 <= i < entries.len() ==> textmap::distinct((#[trigger] entries[i]).attributes),
    ensures
        ({
            let r = file_read(lsx_writer::lsx_file(entries, region_id));
            &&& r.region == Some(region_id)
            &&& r.nodes.len() == entries.len()
            &&& forall|i: int|
                0 <= i < entries.len() ==> {
                    &&& (#[trigger] r.nodes[i]).0 == entries[i].commented
                    &&& reads_as(entry_read(r.nodes[i].1), entries[i])
                }
        }),
{
    let told = |e: EntryModel| top_tags(e);
    let write = lsx_writer::entry_writer();
    let body = text::concat_of(entries, write);
    let st = outside(Seq::empty());
    let whole = lsx_writer::lsx_file(entries, region_id);
    assert(whole =~= head_text(region_id) + body + foot_text());
    lemma_head(region_id);
    let head = scan(st, head_text(region_id)).tags;
    assert forall|i: int, t: Seq<Seq<char>>|
        0 <= i < entries.len() implies #[trigger] scan(outside(t), write(entries[i])) == outside(
        t + told(entries[i]),
    ) by {
        lemma_top_tags(t, entries[i]);
    }
    lemma_scan_joined(head, entries, write, told);
    let mid = joined_tags(entries, told);
    lemma_scan_both(st, head_text(region_id) + body, foot_text());
    lemma_scan_both(st, head_text(region_id), body);
    lemma_foot(head + mid);
    lemma_said_both(head, mid);
    let start = FileRead { region: None, depth: 0, commented: false, nodes: Seq::empty() };
    let last = seq![Item::EndChildren, Item::EndNode, Item::Other, Item::Other];
    let items = items_in(whole);
    assert(items =~= head_items(region_id) + said(mid) + last);
    lemma_steps_both(start, head_items(region_id) + said(mid), last);
    lemma_steps_both(start, head_items(region_id), said(mid));
    let s1 = file_steps(start, head_items(region_id));
    lemma_head_steps(start, region_id);
    lemma_entries_steps(s1, entries);
    let s2 = file_steps(s1, said(mid));
    lemma_last_steps(s2);
    let r = file_read(whole);
    assert(r.nodes =~= read_nodes(entries));
    assert forall|i: int| 0 <= i < entries.len() implies (#[trigger] r.nodes[i]).0
        == entries[i].commented && reads_as(entry_read(r.nodes[i].1), entries[i]) by {
        lemma_entry_said(entries[i]);
    }
}

proof fn lemma_head_steps(start: FileRead, region_id: Seq<char>)
    requires
        start == (FileRead { region: None, depth: 0, commented: false, nodes: Seq::empty() }),
    ensures
        file_steps(start, head_items(region_id)) == (FileRead {
            region: Some(region_id),
            depth: 1,
            ..start
        }),
{
    let h = head_items(region_id);
    let a = seq![Item::Other];
    let r = seq![Item::Region(region_id)];
    let o = seq![Item::Open("root"@)];
    let c = seq![Item::Children];
    assert(h =~= a + a + a + r + o + c);
    lemma_steps_both(start, a + a + a + r + o, c);
    lemma_steps_both(start, a + a + a + r, o);
    lemma_steps_both(start, a + a + a, r);
    lemma_steps_both(start, a + a, a);
    lemma_steps_both(start, a, a);
    lemma_steps_one(start, Item::Other);
    lemma_steps_one(start, Item::Region(region_id));
    let s = FileRead { region: Some(region_id), ..start };
    lemma_steps_one(s, Item::Open("root"@));
    lemma_steps_one(FileRead { depth: 1, ..s }, Item::Children);
}

proof fn lemma_last_steps(st: FileRead)
    requires
        st.depth == 1,
    ensures
        file_steps(
            st,
            seq![Item::EndChildren, Item::EndNode, Item::Other, Item::Other],
        ) == (FileRead { depth: 0, ..st }),
{
    let a = seq![Item::EndChildren];
    let b = seq![Item::EndNode];
    let c = seq![Item::Other];
    assert(seq![Item::EndChildren, Item::EndNode, Item::Other, Item::Other] =~= a + b + c + c);
    lemma_steps_both(st, a + b + c, c);
    lemma_steps_both(st, a + b, c);
    lemma_steps_both(st, a, b);
    lemma_steps_one(st, Item::EndChildren);
    lemma_steps_one(st, Item::EndNode);
    lemma_steps_one(FileRead { depth: 0, ..st }, Item::Other);
}

} // verus!
