//! What the entries of each section have in common.

use vstd::prelude::*;
use crate::models::{AttributeModel, EntryModel, GroupModel, LsxAttribute, LsxChildGroup, LsxEntry,
    Section, SectionModel};
use crate::order;
use crate::order::{sort_ranked, text_before, Ranked};
use crate::text;
use crate::text::{list_has, owned, text_eq};
use crate::textmap;
use crate::textmap::{add_member, TextMap};

verus! {

/// An attribute of a kind of node.
#[derive(Debug)]
pub struct AttrSchema {
    pub name: String,
    pub attr_type: String,
    /// The number of entries that have the attribute.
    pub count: u64,
    /// A few values, each once.
    pub examples: Vec<String>,
}

/// What an attribute of a kind of node says.
pub struct AttrSchemaModel {
    pub name: Seq<char>,
    pub attr_type: Seq<char>,
    pub count: u64,
    pub examples: Seq<Seq<char>>,
}

impl DeepView for AttrSchema {
    type V = AttrSchemaModel;

    open spec fn deep_view(&self) -> AttrSchemaModel {
        AttrSchemaModel {
            name: self.name@,
            attr_type: self.attr_type@,
            count: self.count,
            examples: self.examples.deep_view(),
        }
    }
}

/// A group of children of a kind of node.
#[derive(Debug)]
pub struct ChildSchema {
    pub group_id: String,
    pub child_node_id: String,
    /// The number of entries that have the group.
    pub count: u64,
}

/// What a group of children says.
pub struct ChildSchemaModel {
    pub group_id: Seq<char>,
    pub child_node_id: Seq<char>,
    pub count: u64,
}

impl DeepView for ChildSchema {
    type V = ChildSchemaModel;

    open spec fn deep_view(&self) -> ChildSchemaModel {
        ChildSchemaModel {
            group_id: self.group_id@,
            child_node_id: self.child_node_id@,
            count: self.count,
        }
    }
}

/// A kind of node in a section.
#[derive(Debug)]
pub struct NodeSchema {
    pub node_id: String,
    pub section: String,
    /// The number of entries.
    pub sample_count: usize,
    pub attributes: Vec<AttrSchema>,
    pub children: Vec<ChildSchema>,
}

/// What a kind of node says.
pub struct NodeSchemaModel {
    pub node_id: Seq<char>,
    pub section: Seq<char>,
    pub sample_count: nat,
    pub attributes: Seq<AttrSchemaModel>,
    pub children: Seq<ChildSchemaModel>,
}

impl DeepView for NodeSchema {
    type V = NodeSchemaModel;

    open spec fn deep_view(&self) -> NodeSchemaModel {
        NodeSchemaModel {
            node_id: self.node_id@,
            section: self.section@,
            sample_count: self.sample_count as nat,
            attributes: self.attributes.deep_view(),
            children: self.children.deep_view(),
        }
    }
}

/// One more, as far as it can be held.
pub open spec fn one_more(n: u64) -> u64 {
    if n < u64::MAX {
        (n + 1) as u64
    } else {
        n
    }
}

fn count_one(n: u64) -> (r: u64)
    ensures
        r == one_more(n),
{
    if n < u64::MAX {
        n + 1
    } else {
        n
    }
}

// ---------------------------------------------------------------------------
// Attributes
// ---------------------------------------------------------------------------

/// The examples with a value: five at most, none empty, each once.
pub open spec fn with_example(examples: Seq<Seq<char>>, value: Seq<char>) -> Seq<Seq<char>> {
    if examples.len() < 5 && value.len() > 0 && !text::listed(examples, value) {
        examples.push(value)
    } else {
        examples
    }
}

/// The place of an attribute among those seen.
pub open spec fn attr_place(seen: Seq<AttrSchemaModel>, name: Seq<char>, from: int) -> int
    decreases seen.len() - from,
{
    if 0 <= from < seen.len() && seen[from].name != name {
        attr_place(seen, name, from + 1)
    } else {
        from
    }
}

/// The attributes seen with one more. Its first type counts.
pub open spec fn attr_seen(
    seen: Seq<AttrSchemaModel>,
    name: Seq<char>,
    attr: AttributeModel,
) -> Seq<AttrSchemaModel> {
    let at = attr_place(seen, name, 0);
    if 0 <= at < seen.len() {
        seen.update(
            at,
            AttrSchemaModel {
                count: one_more(seen[at].count),
                examples: with_example(seen[at].examples, attr.value),
                ..seen[at]
            },
        )
    } else {
        seen.push(
            AttrSchemaModel {
                name,
                attr_type: attr.attr_type,
                count: 1,
                examples: with_example(Seq::empty(), attr.value),
            },
        )
    }
}

/// The attributes seen with those of an entry.
pub open spec fn attrs_seen(
    seen: Seq<AttrSchemaModel>,
    attrs: Seq<(Seq<char>, AttributeModel)>,
) -> Seq<AttrSchemaModel>
    decreases attrs.len(),
{
    if attrs.len() == 0 {
        seen
    } else {
        attr_seen(attrs_seen(seen, attrs.drop_last()), attrs.last().0, attrs.last().1)
    }
}

/// The attributes of entries.
pub open spec fn attrs_of(entries: Seq<EntryModel>) -> Seq<AttrSchemaModel>
    decreases entries.len(),
{
    if entries.len() == 0 {
        Seq::empty()
    } else {
        attrs_seen(attrs_of(entries.drop_last()), entries.last().attributes)
    }
}

/// Whether examples are few, not empty, and each stands once.
pub open spec fn good_examples(examples: Seq<Seq<char>>) -> bool {
    &&& examples.len() <= 5
    &&& forall|i: int| 0 <= i < examples.len() ==> (#[trigger] examples[i]).len() > 0
    &&& forall|i: int, j: int|
        0 <= i < j < examples.len() ==> #[trigger] examples[i] != #[trigger] examples[j]
}

/// An attribute has at most five examples, none of them empty, none twice.
pub proof fn law_examples_few(entries: Seq<EntryModel>)
    ensures
        forall|i: int|
            0 <= i < attrs_of(entries).len() ==> good_examples(
                (#[trigger] attrs_of(entries)[i]).examples,
            ),
    decreases entries.len(),
{
    if entries.len() > 0 {
        law_examples_few(entries.drop_last());
        lemma_examples_kept(attrs_of(entries.drop_last()), entries.last().attributes);
    }
}

proof fn lemma_examples_kept(
    seen: Seq<AttrSchemaModel>,
    attrs: Seq<(Seq<char>, AttributeModel)>,
)
    requires
        forall|i: int| 0 <= i < seen.len() ==> good_examples((#[trigger] seen[i]).examples),
    ensures
        forall|i: int|
            0 <= i < attrs_seen(seen, attrs).len() ==> good_examples(
                (#[trigger] attrs_seen(seen, attrs)[i]).examples,
            ),
    decreases attrs.len(),
{
    if attrs.len() > 0 {
        lemma_examples_kept(seen, attrs.drop_last());
        let before = attrs_seen(seen, attrs.drop_last());
        let after = attrs_seen(seen, attrs);
        let at = attr_place(before, attrs.last().0, 0);
        let value = attrs.last().1.value;
        assert forall|i: int| 0 <= i < after.len() implies good_examples(
            (#[trigger] after[i]).examples,
        ) by {
            let old_examples = if i < before.len() {
                before[i].examples
            } else {
                Seq::empty()
            };
            assert(good_examples(old_examples));
            assert(good_examples(with_example(old_examples, value)));
        }
    }
}

/// The attributes by how common they are, the identifier first, and by name.
impl Ranked for AttrSchema {
    open spec fn ranks_before(a: AttrSchemaModel, b: AttrSchemaModel) -> bool {
        if a.name == "UUID"@ {
            b.name != "UUID"@
        } else if b.name == "UUID"@ {
            false
        } else {
            a.count > b.count || (a.count == b.count && order::text_lt(a.name, b.name))
        }
    }

    fn goes_before(&self, other: &Self) -> (r: bool) {
        if text_eq(self.name.as_str(), "UUID") {
            !text_eq(other.name.as_str(), "UUID")
        } else if text_eq(other.name.as_str(), "UUID") {
            false
        } else {
            self.count > other.count || (self.count == other.count && text_before(
                self.name.as_str(),
                other.name.as_str(),
            ))
        }
    }
}

#[verifier::loop_isolation(false)]
fn find_attr(seen: &Vec<AttrSchema>, name: &str) -> (r: usize)
    ensures
        r == attr_place(seen.deep_view(), name@, 0),
        r <= seen@.len(),
{
    let ghost all = seen.deep_view();
    let mut i: usize = 0;
    while i < seen.len() && !text_eq(seen[i].name.as_str(), name)
        invariant
            i <= seen@.len(),
            all == seen.deep_view(),
            attr_place(all, name@, i as int) == attr_place(all, name@, 0),
        decreases seen@.len() - i,
    {
        assert(all[i as int] == seen@[i as int].deep_view());
        i += 1;
    }
    assert(i < seen@.len() ==> all[i as int] == seen@[i as int].deep_view());
    i
}

fn add_example(examples: &mut Vec<String>, value: &str)
    ensures
        final(examples).deep_view() == with_example(old(examples).deep_view(), value@),
{
    let ghost before = examples.deep_view();
    assert(before.len() == examples@.len());
    if examples.len() < 5 && !value.is_empty() && !list_has(examples, value) {
        examples.push(owned(value));
        assert(examples.deep_view() =~= before.push(value@));
    }
}

fn note_attr(seen: &mut Vec<AttrSchema>, name: &str, attr: &LsxAttribute)
    ensures
        final(seen).deep_view() == attr_seen(old(seen).deep_view(), name@, attr.deep_view()),
{
    let ghost before = seen.deep_view();
    let ghost held = seen@;
    assert(before.len() == held.len());
    let at: usize = find_attr(seen, name);
    if at < seen.len() {
        assert(before[at as int] == held[at as int].deep_view());
        let n: u64 = seen[at].count;
        seen[at].count = count_one(n);
        add_example(&mut seen[at].examples, attr.value.as_str());
        assert(seen.deep_view() =~= attr_seen(before, name@, attr.deep_view()));
    } else {
        let mut examples: Vec<String> = Vec::new();
        assert(examples.deep_view() =~= Seq::<Seq<char>>::empty());
        add_example(&mut examples, attr.value.as_str());
        let one = AttrSchema {
            name: owned(name),
            attr_type: attr.attr_type.clone(),
            count: 1,
            examples,
        };
        seen.push(one);
        assert(seen.deep_view() =~= before.push(one.deep_view()));
    }
}

#[verifier::loop_isolation(false)]
fn note_attrs(seen: &mut Vec<AttrSchema>, attrs: &TextMap<LsxAttribute>)
    ensures
        final(seen).deep_view() == attrs_seen(old(seen).deep_view(), attrs.deep_view()),
{
    let ghost start = seen.deep_view();
    let ghost all = attrs.deep_view();
    let mut i: usize = 0;
    while i < attrs.entries.len()
        invariant
            i <= attrs.entries@.len(),
            all == attrs.deep_view(),
            seen.deep_view() == attrs_seen(start, all.take(i as int)),
        decreases attrs.entries@.len() - i,
    {
        assert(all.take(i + 1).drop_last() =~= all.take(i as int));
        let entry = &attrs.entries[i];
        assert(all[i as int] == (entry.0@, entry.1.deep_view()));
        note_attr(seen, entry.0.as_str(), &entry.1);
        i += 1;
    }
    assert(all.take(i as int) =~= all);
}

// ---------------------------------------------------------------------------
// Children
// ---------------------------------------------------------------------------

/// A group of children as far as entries were seen.
#[derive(Debug)]
pub struct GroupTally {
    pub group_id: String,
    /// The kind of the first child, once one was seen.
    pub child: Option<String>,
    pub count: u64,
}

/// A group of children as far as entries were seen.
pub struct TallyModel {
    pub group_id: Seq<char>,
    pub child: Option<Seq<char>>,
    pub count: u64,
}

impl DeepView for GroupTally {
    type V = TallyModel;

    open spec fn deep_view(&self) -> TallyModel {
        TallyModel { group_id: self.group_id@, child: self.child.deep_view(), count: self.count }
    }
}

/// The place of a group among those seen.
pub open spec fn group_place(seen: Seq<TallyModel>, id: Seq<char>, from: int) -> int
    decreases seen.len() - from,
{
    if 0 <= from < seen.len() && seen[from].group_id != id {
        group_place(seen, id, from + 1)
    } else {
        from
    }
}

/// The kind of the first child of a group.
pub open spec fn first_child(g: GroupModel) -> Option<Seq<char>> {
    if g.entries.len() > 0 {
        Some(g.entries[0].node_id)
    } else {
        None
    }
}

/// Whether groups have a group of a name.
pub open spec fn names_group(groups: Seq<GroupModel>, id: Seq<char>) -> bool {
    exists|i: int| 0 <= i < groups.len() && (#[trigger] groups[i]).group_id == id
}

/// The groups seen with one more. It counts unless it stands again in the same
/// entry. The first kind of child is taken.
pub open spec fn group_seen(seen: Seq<TallyModel>, g: GroupModel, again: bool) -> Seq<TallyModel> {
    let at = group_place(seen, g.group_id, 0);
    if 0 <= at < seen.len() {
        seen.update(
            at,
            TallyModel {
                count: if again {
                    seen[at].count
                } else {
                    one_more(seen[at].count)
                },
                child: if seen[at].child is Some {
                    seen[at].child
                } else {
                    first_child(g)
                },
                ..seen[at]
            },
        )
    } else {
        seen.push(TallyModel { group_id: g.group_id, child: first_child(g), count: 1 })
    }
}

/// The groups seen with those of an entry, which counts once for each name.
pub open spec fn groups_seen(seen: Seq<TallyModel>, groups: Seq<GroupModel>) -> Seq<TallyModel>
    decreases groups.len(),
{
    if groups.len() == 0 {
        seen
    } else {
        group_seen(
            groups_seen(seen, groups.drop_last()),
            groups.last(),
            names_group(groups.drop_last(), groups.last().group_id),
        )
    }
}

/// The groups of entries.
pub open spec fn groups_of(entries: Seq<EntryModel>) -> Seq<TallyModel>
    decreases entries.len(),
{
    if entries.len() == 0 {
        Seq::empty()
    } else {
        groups_seen(groups_of(entries.drop_last()), entries.last().children)
    }
}

/// Groups as they are told.
pub open spec fn told_groups(tallies: Seq<TallyModel>) -> Seq<ChildSchemaModel> {
    Seq::new(
        tallies.len(),
        |i: int|
            ChildSchemaModel {
                group_id: tallies[i].group_id,
                child_node_id: text::or_empty(tallies[i].child),
                count: tallies[i].count,
            },
    )
}

/// The groups by how common they are, and by name.
impl Ranked for ChildSchema {
    open spec fn ranks_before(a: ChildSchemaModel, b: ChildSchemaModel) -> bool {
        a.count > b.count || (a.count == b.count && order::text_lt(a.group_id, b.group_id))
    }

    fn goes_before(&self, other: &Self) -> (r: bool) {
        self.count > other.count || (self.count == other.count && text_before(
            self.group_id.as_str(),
            other.group_id.as_str(),
        ))
    }
}

#[verifier::loop_isolation(false)]
fn find_group(seen: &Vec<GroupTally>, id: &str) -> (r: usize)
    ensures
        r == group_place(seen.deep_view(), id@, 0),
        r <= seen@.len(),
{
    let ghost all = seen.deep_view();
    let mut i: usize = 0;
    while i < seen.len() && !text_eq(seen[i].group_id.as_str(), id)
        invariant
            i <= seen@.len(),
            all == seen.deep_view(),
            group_place(all, id@, i as int) == group_place(all, id@, 0),
        decreases seen@.len() - i,
    {
        assert(all[i as int] == seen@[i as int].deep_view());
        i += 1;
    }
    assert(i < seen@.len() ==> all[i as int] == seen@[i as int].deep_view());
    i
}

fn find_first_child(g: &LsxChildGroup) -> (r: Option<String>)
    ensures
        r.deep_view() == first_child(g.deep_view()),
{
    assert(g.deep_view().entries.len() == g.entries@.len());
    if g.entries.len() > 0 {
        assert(g.deep_view().entries[0] == g.entries@[0].deep_view());
        Some(g.entries[0].node_id.clone())
    } else {
        None
    }
}

/// Whether a group stands before a place among groups of its name.
#[verifier::loop_isolation(false)]
fn stands_again(groups: &Vec<LsxChildGroup>, at: usize) -> (r: bool)
    requires
        at < groups@.len(),
    ensures
        r == names_group(
            groups.deep_view().take(at as int),
            groups.deep_view()[at as int].group_id,
        ),
{
    let ghost all = groups.deep_view();
    assert(all[at as int] == groups@[at as int].deep_view());
    let mut i: usize = 0;
    while i < at
        invariant
            i <= at,
            at < groups@.len(),
            all == groups.deep_view(),
            !names_group(all.take(i as int), all[at as int].group_id),
        decreases at - i,
    {
        assert(all[i as int] == groups@[i as int].deep_view());
        if text_eq(groups[i].group_id.as_str(), groups[at].group_id.as_str()) {
            assert(all.take(at as int)[i as int].group_id == all[at as int].group_id);
            return true;
        }
        assert forall|k: int| 0 <= k < i + 1 implies (#[trigger] all.take(i + 1)[k]).group_id
            != all[at as int].group_id by {
            if k < i {
                assert(all.take(i as int)[k] == all.take(i + 1)[k]);
            }
        }
        i += 1;
    }
    false
}

fn note_group(seen: &mut Vec<GroupTally>, g: &LsxChildGroup, again: bool)
    ensures
        final(seen).deep_view() == group_seen(old(seen).deep_view(), g.deep_view(), again),
{
    let ghost before = seen.deep_view();
    let ghost held = seen@;
    assert(before.len() == held.len());
    let at: usize = find_group(seen, g.group_id.as_str());
    if at < seen.len() {
        assert(before[at as int] == held[at as int].deep_view());
        if !again {
            let n: u64 = seen[at].count;
            seen[at].count = count_one(n);
        }
        if seen[at].child.is_none() {
            seen[at].child = find_first_child(g);
        }
        assert(seen.deep_view() =~= group_seen(before, g.deep_view(), again));
    } else {
        let one = GroupTally {
            group_id: g.group_id.clone(),
            child: find_first_child(g),
            count: 1,
        };
        seen.push(one);
        assert(seen.deep_view() =~= before.push(one.deep_view()));
    }
}

#[verifier::loop_isolation(false)]
fn tell_groups(tallies: &Vec<GroupTally>) -> (r: Vec<ChildSchema>)
    ensures
        r.deep_view() == told_groups(tallies.deep_view()),
{
    let ghost want = told_groups(tallies.deep_view());
    let mut r: Vec<ChildSchema> = Vec::new();
    assert(r.deep_view() =~= want.take(0));
    let mut i: usize = 0;
    while i < tallies.len()
        invariant
            i <= tallies@.len(),
            r.deep_view() == want.take(i as int),
        decreases tallies@.len() - i,
    {
        let t = &tallies[i];
        assert(tallies.deep_view()[i as int] == t.deep_view());
        let child_node_id = match &t.child {
            Some(c) => c.clone(),
            None => String::new(),
        };
        assert(child_node_id@ =~= text::or_empty(t.child.deep_view()));
        let one = ChildSchema { group_id: t.group_id.clone(), child_node_id, count: t.count };
        let ghost before = r.deep_view();
        r.push(one);
        assert(r.deep_view() =~= before.push(one.deep_view()));
        assert(want.take(i + 1) =~= want.take(i as int).push(want[i as int]));
        i += 1;
    }
    assert(want.take(i as int) =~= want);
    r
}

#[verifier::loop_isolation(false)]
fn note_groups(seen: &mut Vec<GroupTally>, groups: &Vec<LsxChildGroup>)
    ensures
        final(seen).deep_view() == groups_seen(old(seen).deep_view(), groups.deep_view()),
{
    let ghost start = seen.deep_view();
    let ghost all = groups.deep_view();
    let mut i: usize = 0;
    while i < groups.len()
        invariant
            i <= groups@.len(),
            all == groups.deep_view(),
            seen.deep_view() == groups_seen(start, all.take(i as int)),
        decreases groups@.len() - i,
    {
        assert(all.take(i + 1).drop_last() =~= all.take(i as int));
        assert(all[i as int] == groups@[i as int].deep_view());
        let again = stands_again(groups, i);
        note_group(seen, &groups[i], again);
        i += 1;
    }
    assert(all.take(i as int) =~= all);
}

/// Whether no tally is above a bound.
pub open spec fn tallies_within(seen: Seq<TallyModel>, bound: int) -> bool {
    forall|i: int| 0 <= i < seen.len() ==> (#[trigger] seen[i]).count <= bound
}

/// Whether no attribute was seen more often than a bound.
pub open spec fn attrs_within(seen: Seq<AttrSchemaModel>, bound: int) -> bool {
    forall|i: int| 0 <= i < seen.len() ==> (#[trigger] seen[i]).count <= bound
}

/// Whether the attributes of each entry have different names.
pub open spec fn distinct_attributes(entries: Seq<EntryModel>) -> bool {
    forall|i: int| 0 <= i < entries.len() ==> textmap::distinct((#[trigger] entries[i]).attributes)
}

proof fn lemma_place_is_of_group(seen: Seq<TallyModel>, id: Seq<char>, from: int)
    requires
        0 <= from <= seen.len(),
    ensures
        ({
            let at = group_place(seen, id, from);
            &&& from <= at <= seen.len()
            &&& at < seen.len() ==> seen[at].group_id == id
        }),
    decreases seen.len() - from,
{
    if from < seen.len() && seen[from].group_id != id {
        lemma_place_is_of_group(seen, id, from + 1);
    }
}

proof fn lemma_place_is_of_attr(seen: Seq<AttrSchemaModel>, name: Seq<char>, from: int)
    requires
        0 <= from <= seen.len(),
    ensures
        ({
            let at = attr_place(seen, name, from);
            &&& from <= at <= seen.len()
            &&& at < seen.len() ==> seen[at].name == name
        }),
    decreases seen.len() - from,
{
    if from < seen.len() && seen[from].name != name {
        lemma_place_is_of_attr(seen, name, from + 1);
    }
}

proof fn lemma_entry_counts_groups_once(
    seen: Seq<TallyModel>,
    groups: Seq<GroupModel>,
    bound: int,
)
    requires
        bound >= 0,
        tallies_within(seen, bound),
    ensures
        tallies_within(groups_seen(seen, groups), bound + 1),
        forall|i: int|
            0 <= i < groups_seen(seen, groups).len() && !names_group(
                groups,
                (#[trigger] groups_seen(seen, groups)[i]).group_id,
            ) ==> groups_seen(seen, groups)[i].count <= bound,
    decreases groups.len(),
{
    if groups.len() > 0 {
        let d = groups.drop_last();
        lemma_entry_counts_groups_once(seen, d, bound);
        let before = groups_seen(seen, d);
        let after = groups_seen(seen, groups);
        let id = groups.last().group_id;
        let at = group_place(before, id, 0);
        lemma_place_is_of_group(before, id, 0);
        assert(groups[groups.len() - 1].group_id == id);
        assert(names_group(groups, id));
        assert forall|other: Seq<char>| #[trigger] names_group(d, other) implies names_group(
            groups,
            other,
        ) by {
            let k = choose|k: int| 0 <= k < d.len() && (#[trigger] d[k]).group_id == other;
            assert(groups[k].group_id == other);
        }
        assert forall|i: int| 0 <= i < after.len() implies (#[trigger] after[i]).count <= bound + 1
            by {
            if i < before.len() {
                assert(before[i].count <= bound + 1);
                if i == at && !names_group(d, id) {
                    assert(before[i].count <= bound);
                }
            }
        }
        assert forall|i: int|
            0 <= i < after.len() && !names_group(
                groups,
                (#[trigger] after[i]).group_id,
            ) implies after[i].count <= bound by {
            assert(i != at);
            assert(i < before.len());
            assert(before[i] == after[i]);
        }
    }
}

proof fn lemma_entry_counts_attrs_once(
    seen: Seq<AttrSchemaModel>,
    attrs: Seq<(Seq<char>, AttributeModel)>,
    bound: int,
)
    requires
        bound >= 0,
        attrs_within(seen, bound),
        textmap::distinct(attrs),
    ensures
        attrs_within(attrs_seen(seen, attrs), bound + 1),
        forall|i: int|
            0 <= i < attrs_seen(seen, attrs).len() && !textmap::has_key(
                attrs,
                (#[trigger] attrs_seen(seen, attrs)[i]).name,
            ) ==> attrs_seen(seen, attrs)[i].count <= bound,
    decreases attrs.len(),
{
    if attrs.len() > 0 {
        let d = attrs.drop_last();
        assert forall|i: int, j: int| 0 <= i < j < d.len() implies #[trigger] d[i].0
            != #[trigger] d[j].0 by {
            assert(d[i] == attrs[i]);
            assert(d[j] == attrs[j]);
        }
        lemma_entry_counts_attrs_once(seen, d, bound);
        let before = attrs_seen(seen, d);
        let after = attrs_seen(seen, attrs);
        let name = attrs.last().0;
        let at = attr_place(before, name, 0);
        lemma_place_is_of_attr(before, name, 0);
        textmap::lemma_key_pos(attrs, name);
        textmap::lemma_key_pos(d, name);
        assert(attrs[attrs.len() - 1].0 == name);
        assert(!textmap::has_key(d, name)) by {
            if textmap::has_key(d, name) {
                let k = textmap::key_pos(d, name)->0;
                assert(d[k].0 == name);
                assert(attrs[k].0 == name);
            }
        }
        assert forall|i: int| 0 <= i < after.len() implies (#[trigger] after[i]).count <= bound + 1
            by {
            if i < before.len() {
                assert(before[i].count <= bound + 1);
                if i == at {
                    assert(before[i].count <= bound);
                }
            }
        }
        assert forall|i: int|
            0 <= i < after.len() && !textmap::has_key(
                attrs,
                (#[trigger] after[i]).name,
            ) implies after[i].count <= bound by {
            assert(i != at);
            assert(i < before.len());
            assert(before[i] == after[i]);
            textmap::lemma_key_pos(attrs, after[i].name);
            textmap::lemma_key_pos(d, after[i].name);
            if textmap::has_key(d, after[i].name) {
                let k = textmap::key_pos(d, after[i].name)->0;
                assert(attrs[k].0 == after[i].name);
            }
        }
    }
}

proof fn lemma_counts_within(entries: Seq<EntryModel>)
    ensures
        tallies_within(groups_of(entries), entries.len() as int),
        distinct_attributes(entries) ==> attrs_within(attrs_of(entries), entries.len() as int),
    decreases entries.len(),
{
    if entries.len() > 0 {
        let d = entries.drop_last();
        lemma_counts_within(d);
        lemma_entry_counts_groups_once(groups_of(d), entries.last().children, d.len() as int);
        if distinct_attributes(entries) {
            assert forall|i: int| 0 <= i < d.len() implies textmap::distinct(
                (#[trigger] d[i]).attributes,
            ) by {
                assert(d[i] == entries[i]);
            }
            assert(entries[entries.len() - 1] == entries.last());
            lemma_entry_counts_attrs_once(attrs_of(d), entries.last().attributes, d.len() as int);
        }
    }
}

/// Each entry counts at most once: no group of children and no attribute is
/// counted more often than there are entries of the kind.
pub proof fn law_counts_within_samples(
    section: Seq<char>,
    kind: Seq<char>,
    entries: Seq<EntryModel>,
)
    ensures
        ({
            let s = kind_schema(section, kind, entries);
            &&& forall|i: int|
                0 <= i < s.children.len() ==> (#[trigger] s.children[i]).count <= s.sample_count
            &&& distinct_attributes(entries) ==> forall|i: int|
                0 <= i < s.attributes.len() ==> (#[trigger] s.attributes[i]).count
                    <= s.sample_count
        }),
{
    let s = kind_schema(section, kind, entries);
    lemma_counts_within(entries);
    let told = told_groups(groups_of(entries));
    order::lemma_sorted_from(told, order::rank::<ChildSchema>());
    order::lemma_sorted_from(attrs_of(entries), order::rank::<AttrSchema>());
    assert forall|i: int| 0 <= i < s.children.len() implies (#[trigger] s.children[i]).count
        <= s.sample_count by {
        assert(told.contains(s.children[i]));
        let k = choose|k: int| 0 <= k < told.len() && told[k] == s.children[i];
        assert(groups_of(entries)[k].count == told[k].count);
    }
    if distinct_attributes(entries) {
        assert forall|i: int| 0 <= i < s.attributes.len() implies (#[trigger] s.attributes[i]).count
            <= s.sample_count by {
            assert(attrs_of(entries).contains(s.attributes[i]));
        }
    }
}

// ---------------------------------------------------------------------------
// Kinds of nodes
// ---------------------------------------------------------------------------

/// The kinds of entries, each once, in the order in which they first occur.
pub open spec fn kinds_of(entries: Seq<(Seq<char>, EntryModel)>) -> Seq<Seq<char>>
    decreases entries.len(),
{
    if entries.len() == 0 {
        Seq::empty()
    } else {
        textmap::with_member(kinds_of(entries.drop_last()), entries.last().1.node_id)
    }
}

/// The entries of a kind.
pub open spec fn entries_of_kind(entries: Seq<(Seq<char>, EntryModel)>, kind: Seq<char>) -> Seq<
    EntryModel,
>
    decreases entries.len(),
{
    if entries.len() == 0 {
        Seq::empty()
    } else {
        let before = entries_of_kind(entries.drop_last(), kind);
        if entries.last().1.node_id == kind {
            before.push(entries.last().1)
        } else {
            before
        }
    }
}

/// What the entries of a kind have in common.
pub open spec fn kind_schema(
    section: Seq<char>,
    kind: Seq<char>,
    entries: Seq<EntryModel>,
) -> NodeSchemaModel {
    NodeSchemaModel {
        node_id: kind,
        section,
        sample_count: entries.len(),
        attributes: order::stable_sort(attrs_of(entries), order::rank::<AttrSchema>()),
        children: order::stable_sort(
            told_groups(groups_of(entries)),
            order::rank::<ChildSchema>(),
        ),
    }
}

/// What the entries of a section have in common, kind by kind.
pub open spec fn section_schemas(
    section: Seq<char>,
    entries: Seq<(Seq<char>, EntryModel)>,
) -> Seq<NodeSchemaModel> {
    let kinds = kinds_of(entries);
    Seq::new(
        kinds.len(),
        |i: int| kind_schema(section, kinds[i], entries_of_kind(entries, kinds[i])),
    )
}

/// What the entries of sections have in common.
pub open spec fn all_schemas(
    sections: Seq<(SectionModel, Seq<(Seq<char>, EntryModel)>)>,
) -> Seq<NodeSchemaModel>
    decreases sections.len(),
{
    if sections.len() == 0 {
        Seq::empty()
    } else {
        all_schemas(sections.drop_last()) + section_schemas(
            sections.last().0.name,
            sections.last().1,
        )
    }
}

#[verifier::loop_isolation(false)]
fn list_kinds(entries: &TextMap<LsxEntry>) -> (r: Vec<String>)
    ensures
        r.deep_view() == kinds_of(entries.deep_view()),
{
    let ghost all = entries.deep_view();
    let mut r: Vec<String> = Vec::new();
    assert(r.deep_view() =~= kinds_of(all.take(0)));
    let mut i: usize = 0;
    while i < entries.entries.len()
        invariant
            i <= entries.entries@.len(),
            all == entries.deep_view(),
            r.deep_view() == kinds_of(all.take(i as int)),
        decreases entries.entries@.len() - i,
    {
        assert(all.take(i + 1).drop_last() =~= all.take(i as int));
        let entry = &entries.entries[i];
        assert(all[i as int] == (entry.0@, entry.1.deep_view()));
        add_member(&mut r, entry.1.node_id.as_str());
        i += 1;
    }
    assert(all.take(i as int) =~= all);
    r
}

#[verifier::loop_isolation(false)]
fn infer_kind(section: &str, kind: &str, entries: &TextMap<LsxEntry>) -> (r: NodeSchema)
    ensures
        r.deep_view() == kind_schema(
            section@,
            kind@,
            entries_of_kind(entries.deep_view(), kind@),
        ),
{
    let ghost all = entries.deep_view();
    let mut sample_count: usize = 0;
    let mut attributes: Vec<AttrSchema> = Vec::new();
    let mut children: Vec<GroupTally> = Vec::new();
    assert(attributes.deep_view() =~= Seq::<AttrSchemaModel>::empty());
    assert(children.deep_view() =~= Seq::<TallyModel>::empty());
    let mut i: usize = 0;
    while i < entries.entries.len()
        invariant
            i <= entries.entries@.len(),
            sample_count <= i,
            all == entries.deep_view(),
            sample_count == entries_of_kind(all.take(i as int), kind@).len(),
            attributes.deep_view() == attrs_of(entries_of_kind(all.take(i as int), kind@)),
            children.deep_view() == groups_of(entries_of_kind(all.take(i as int), kind@)),
        decreases entries.entries@.len() - i,
    {
        assert(all.take(i + 1).drop_last() =~= all.take(i as int));
        let entry = &entries.entries[i];
        assert(all[i as int] == (entry.0@, entry.1.deep_view()));
        let ghost before = entries_of_kind(all.take(i as int), kind@);
        if text_eq(entry.1.node_id.as_str(), kind) {
            note_attrs(&mut attributes, &entry.1.attributes);
            note_groups(&mut children, &entry.1.children);
            sample_count += 1;
            assert(before.push(entry.1.deep_view()).drop_last() =~= before);
        }
        i += 1;
    }
    assert(all.take(i as int) =~= all);
    NodeSchema {
        node_id: owned(kind),
        section: owned(section),
        sample_count,
        attributes: sort_ranked(attributes),
        children: sort_ranked(tell_groups(&children)),
    }
}

#[verifier::loop_isolation(false)]
fn infer_section(out: &mut Vec<NodeSchema>, section: &str, entries: &TextMap<LsxEntry>)
    ensures
        final(out).deep_view() == old(out).deep_view() + section_schemas(
            section@,
            entries.deep_view(),
        ),
{
    let ghost start = out.deep_view();
    let ghost want = section_schemas(section@, entries.deep_view());
    let kinds = list_kinds(entries);
    assert(start + want.take(0) =~= start);
    let mut i: usize = 0;
    while i < kinds.len()
        invariant
            i <= kinds@.len(),
            kinds.deep_view() == kinds_of(entries.deep_view()),
            out.deep_view() == start + want.take(i as int),
        decreases kinds@.len() - i,
    {
        assert(kinds.deep_view()[i as int] == kinds@[i as int]@);
        let ghost before = out.deep_view();
        let one = infer_kind(section, kinds[i].as_str(), entries);
        out.push(one);
        assert(out.deep_view() =~= before.push(one.deep_view()));
        assert(want.take(i + 1) =~= want.take(i as int).push(want[i as int]));
        assert(out.deep_view() =~= start + want.take(i + 1));
        i += 1;
    }
    assert(want.take(i as int) =~= want);
}

/// What the entries of sections have in common, kind by kind: attributes with
/// their types, how often they occur and some values, and groups of children. The
/// sections are taken in their order.
#[verifier::loop_isolation(false)]
pub fn infer_schemas(lsx_sections: &Vec<(Section, TextMap<LsxEntry>)>) -> (r: Vec<NodeSchema>)
    ensures
        r.deep_view() == all_schemas(lsx_sections.deep_view()),
{
    let ghost all = lsx_sections.deep_view();
    let mut r: Vec<NodeSchema> = Vec::new();
    assert(r.deep_view() =~= all_schemas(all.take(0)));
    let mut i: usize = 0;
    while i < lsx_sections.len()
        invariant
            i <= lsx_sections@.len(),
            all == lsx_sections.deep_view(),
            r.deep_view() == all_schemas(all.take(i as int)),
        decreases lsx_sections@.len() - i,
    {
        assert(all.take(i + 1).drop_last() =~= all.take(i as int));
        let s = &lsx_sections[i];
        assert(all[i as int] == (s.0.deep_view(), s.1.deep_view()));
        infer_section(&mut r, s.0.name.as_str(), &s.1);
        i += 1;
    }
    assert(all.take(i as int) =~= all);
    r
}

} // verus!
