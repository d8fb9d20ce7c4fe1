//! The game's entries as plain values.

use vstd::prelude::*;
use crate::textmap::TextMap;

verus! {

/// An attribute of an LSX node.
#[derive(Debug)]
pub struct LsxAttribute {
    pub attr_type: String,
    pub value: String,
}

/// What an attribute says.
pub struct AttributeModel {
    pub attr_type: Seq<char>,
    pub value: Seq<char>,
}

impl DeepView for LsxAttribute {
    type V = AttributeModel;

    open spec fn deep_view(&self) -> AttributeModel {
        AttributeModel { attr_type: self.attr_type@, value: self.value@ }
    }
}

impl Clone for LsxAttribute {
    fn clone(&self) -> (r: Self)
        ensures
            r.deep_view() == self.deep_view(),
    {
        LsxAttribute { attr_type: self.attr_type.clone(), value: self.value.clone() }
    }
}

/// A node below a child group.
#[derive(Debug)]
pub struct LsxChildEntry {
    pub node_id: String,
    pub object_guid: String,
}

/// What a child node says.
pub struct ChildModel {
    pub node_id: Seq<char>,
    pub object_guid: Seq<char>,
}

impl DeepView for LsxChildEntry {
    type V = ChildModel;

    open spec fn deep_view(&self) -> ChildModel {
        ChildModel { node_id: self.node_id@, object_guid: self.object_guid@ }
    }
}

/// The child nodes of one kind.
#[derive(Debug)]
pub struct LsxChildGroup {
    pub group_id: String,
    pub entries: Vec<LsxChildEntry>,
}

/// What a child group says.
pub struct GroupModel {
    pub group_id: Seq<char>,
    pub entries: Seq<ChildModel>,
}

impl DeepView for LsxChildGroup {
    type V = GroupModel;

    open spec fn deep_view(&self) -> GroupModel {
        GroupModel { group_id: self.group_id@, entries: self.entries.deep_view() }
    }
}

/// An entry of an LSX file.
#[derive(Debug)]
pub struct LsxEntry {
    pub uuid: String,
    pub node_id: String,
    pub attributes: TextMap<LsxAttribute>,
    pub children: Vec<LsxChildGroup>,
    pub commented: bool,
    pub region_id: String,
}

/// What an entry says.
pub struct EntryModel {
    pub uuid: Seq<char>,
    pub node_id: Seq<char>,
    pub attributes: Seq<(Seq<char>, AttributeModel)>,
    pub children: Seq<GroupModel>,
    pub commented: bool,
    pub region_id: Seq<char>,
}

impl DeepView for LsxEntry {
    type V = EntryModel;

    open spec fn deep_view(&self) -> EntryModel {
        EntryModel {
            uuid: self.uuid@,
            node_id: self.node_id@,
            attributes: self.attributes.deep_view(),
            children: self.children.deep_view(),
            commented: self.commented,
            region_id: self.region_id@,
        }
    }
}

/// A section of the game data: its name and the LSX regions that feed it.
#[derive(Debug)]
pub struct Section {
    pub name: String,
    pub region_id: String,
    pub region_ids: Vec<String>,
}

/// What a section says.
pub struct SectionModel {
    pub name: Seq<char>,
    pub region_id: Seq<char>,
    pub region_ids: Seq<Seq<char>>,
}

impl DeepView for Section {
    type V = SectionModel;

    open spec fn deep_view(&self) -> SectionModel {
        SectionModel {
            name: self.name@,
            region_id: self.region_id@,
            region_ids: self.region_ids.deep_view(),
        }
    }
}

/// An attribute of a node in a resource tree.
#[derive(Debug)]
pub struct LsxNodeAttribute {
    pub id: String,
    pub attr_type: String,
    pub value: String,
    /// The handle of a localized text.
    pub handle: Option<String>,
    /// The version of a localized text.
    pub version: Option<u64>,
}

/// What an attribute of a resource tree says.
pub struct NodeAttributeModel {
    pub id: Seq<char>,
    pub attr_type: Seq<char>,
    pub value: Seq<char>,
    pub handle: Option<Seq<char>>,
    pub version: Option<u64>,
}

impl DeepView for LsxNodeAttribute {
    type V = NodeAttributeModel;

    open spec fn deep_view(&self) -> NodeAttributeModel {
        NodeAttributeModel {
            id: self.id@,
            attr_type: self.attr_type@,
            value: self.value@,
            handle: self.handle.deep_view(),
            version: self.version,
        }
    }
}

/// A node of a resource tree.
#[derive(Debug)]
pub struct LsxNode {
    pub id: String,
    pub attributes: Vec<LsxNodeAttribute>,
    pub children: Vec<LsxNode>,
}

/// A region of a resource.
#[derive(Debug)]
pub struct LsxRegion {
    pub id: String,
    pub nodes: Vec<LsxNode>,
}

/// A resource file: its regions and their trees.
#[derive(Debug)]
pub struct LsxResource {
    pub regions: Vec<LsxRegion>,
}

} // verus!
