use vstd::prelude::*;
use crate::image_spec::{RenderGraphImageConstraint, RenderGraphImageSpecification};

verus! {

#[derive(Clone, Copy, Debug, PartialEq, Eq, Structural)]
pub struct RenderGraphNodeId(pub usize);

#[derive(Clone, Copy, Debug, PartialEq, Eq, Structural)]
pub struct RenderGraphImageUsageId(pub usize);

#[derive(Clone, Copy, Debug, PartialEq, Eq, Structural)]
pub struct RenderGraphOutputImageId(pub usize);

/// Identifies one version of one image resource: `index` picks the resource, `version` the
/// version of it.
#[derive(Clone, Copy, Debug, PartialEq, Eq, Structural)]
pub struct RenderGraphImageVersionId {
    pub index: usize,
    pub version: usize,
}

/// An image as the planner sees it after sharing images between passes.
#[derive(Clone, Copy, Debug, PartialEq, Eq, Structural)]
pub struct VirtualImageId(pub usize);

/// An image that will actually be allocated.
#[derive(Clone, Copy, Debug, PartialEq, Eq, Structural)]
pub struct PhysicalImageId(pub usize);

/// A view of a physical image.
#[derive(Clone, Copy, Debug, PartialEq, Eq, Structural)]
pub struct PhysicalImageViewId(pub usize);

#[derive(Clone, Copy, Debug, PartialEq, Eq, Structural)]
pub enum RenderGraphImageUser {
    Node(RenderGraphNodeId),
    Output(RenderGraphOutputImageId),
}

#[derive(Clone, Copy, Debug, PartialEq, Eq, Structural)]
pub enum RenderGraphImageUsageType {
    Create,
    Input,
    Read,
    ModifyRead,
    ModifyWrite,
    Output,
}

/// A range of mips and layers of an image (`VkImageSubresourceRange`).
#[derive(Clone, Copy, Debug, PartialEq, Eq, Hash, Structural)]
pub struct ImageSubresourceRange {
    pub aspect_mask: u32,
    pub base_mip_level: u32,
    pub level_count: u32,
    pub base_array_layer: u32,
    pub layer_count: u32,
}

/// The part of an image a usage touches, possibly relative to the image's specification.
#[derive(Clone, Copy, Debug, PartialEq, Eq, Structural)]
pub enum RenderGraphImageSubresourceRange {
    AllMipsAllLayers,
    NoMipsNoLayers,
    Specific(ImageSubresourceRange),
}

impl RenderGraphImageSubresourceRange {
    pub open spec fn spec_resolve(self, s: RenderGraphImageSpecification) -> ImageSubresourceRange {
        match self {
            RenderGraphImageSubresourceRange::AllMipsAllLayers => ImageSubresourceRange {
                aspect_mask: s.aspect_flags,
                base_mip_level: 0,
                level_count: s.mip_count,
                base_array_layer: 0,
                layer_count: s.layer_count,
            },
            RenderGraphImageSubresourceRange::NoMipsNoLayers => ImageSubresourceRange {
                aspect_mask: s.aspect_flags,
                base_mip_level: 0,
                level_count: 1,
                base_array_layer: 0,
                layer_count: 1,
            },
            RenderGraphImageSubresourceRange::Specific(r) => r,
        }
    }

    /// The concrete range for an image with the given specification.
    pub fn into_subresource_range(&self, s: &RenderGraphImageSpecification) -> (r:
        ImageSubresourceRange)
        ensures
            r == self.spec_resolve(*s),
    {
        match self {
            RenderGraphImageSubresourceRange::AllMipsAllLayers => ImageSubresourceRange {
                aspect_mask: s.aspect_flags,
                base_mip_level: 0,
                level_count: s.mip_count,
                base_array_layer: 0,
                layer_count: s.layer_count,
            },
            RenderGraphImageSubresourceRange::NoMipsNoLayers => ImageSubresourceRange {
                aspect_mask: s.aspect_flags,
                base_mip_level: 0,
                level_count: 1,
                base_array_layer: 0,
                layer_count: 1,
            },
            RenderGraphImageSubresourceRange::Specific(r) => *r,
        }
    }
}

/// One use of an image version by a node or by an output.
#[derive(Clone, Copy, Debug, PartialEq, Eq, Structural)]
pub struct RenderGraphImageUsage {
    pub user: RenderGraphImageUser,
    pub usage_type: RenderGraphImageUsageType,
    pub version: RenderGraphImageVersionId,
    pub view_type: i32,
    pub subresource_range: RenderGraphImageSubresourceRange,
}

/// A version of an image: the usage that writes it and the usages that read it.
#[derive(Clone, Debug)]
pub struct RenderGraphImageResourceVersionInfo {
    pub creator_node: RenderGraphNodeId,
    pub create_usage: RenderGraphImageUsageId,
    pub read_usages: Vec<RenderGraphImageUsageId>,
}

#[derive(Clone, Debug)]
pub struct RenderGraphImageResource {
    pub name: Option<&'static str>,
    pub versions: Vec<RenderGraphImageResourceVersionInfo>,
}

/// A clear color, each channel held as the bit pattern of an `f32`.
#[derive(Clone, Copy, Debug, PartialEq, Eq, Structural)]
pub struct ClearColorValue {
    pub r_bits: u32,
    pub g_bits: u32,
    pub b_bits: u32,
    pub a_bits: u32,
}

/// A depth/stencil clear value, the depth held as the bit pattern of an `f32`.
#[derive(Clone, Copy, Debug, PartialEq, Eq, Structural)]
pub struct ClearDepthStencilValue {
    pub depth_bits: u32,
    pub stencil: u32,
}

#[derive(Clone, Copy, Debug, PartialEq, Eq, Structural)]
pub enum AttachmentClearValue {
    Color(ClearColorValue),
    DepthStencil(ClearDepthStencilValue),
}

#[derive(Clone, Copy, Debug, PartialEq, Eq, Structural)]
pub struct RenderGraphImageCreate {
    pub image: RenderGraphImageUsageId,
    pub constraint: RenderGraphImageConstraint,
}

#[derive(Clone, Copy, Debug, PartialEq, Eq, Structural)]
pub struct RenderGraphImageRead {
    pub image: RenderGraphImageUsageId,
    pub constraint: RenderGraphImageConstraint,
}

#[derive(Clone, Copy, Debug, PartialEq, Eq, Structural)]
pub struct RenderGraphImageModify {
    pub input: RenderGraphImageUsageId,
    pub output: RenderGraphImageUsageId,
    pub constraint: RenderGraphImageConstraint,
}

#[derive(Clone, Copy, Debug, PartialEq, Eq, Structural)]
pub struct RenderGraphPassColorAttachmentInfo {
    pub read_image: Option<RenderGraphImageUsageId>,
    pub write_image: Option<RenderGraphImageUsageId>,
    pub clear_color_value: Option<ClearColorValue>,
}

#[derive(Clone, Copy, Debug, PartialEq, Eq, Structural)]
pub struct RenderGraphPassResolveAttachmentInfo {
    pub write_image: RenderGraphImageUsageId,
}

#[derive(Clone, Copy, Debug, PartialEq, Eq, Structural)]
pub struct RenderGraphPassDepthAttachmentInfo {
    pub read_image: Option<RenderGraphImageUsageId>,
    pub write_image: Option<RenderGraphImageUsageId>,
    pub clear_depth_stencil_value: Option<ClearDepthStencilValue>,
    pub has_depth: bool,
    pub has_stencil: bool,
}

/// A node of the graph and every way it uses images.
#[derive(Clone, Debug)]
pub struct RenderGraphNode {
    pub id: RenderGraphNodeId,
    pub name: Option<&'static str>,
    pub image_creates: Vec<RenderGraphImageCreate>,
    pub image_reads: Vec<RenderGraphImageRead>,
    pub image_modifies: Vec<RenderGraphImageModify>,
    pub color_attachments: Vec<Option<RenderGraphPassColorAttachmentInfo>>,
    pub resolve_attachments: Vec<Option<RenderGraphPassResolveAttachmentInfo>>,
    pub depth_attachment: Option<RenderGraphPassDepthAttachmentInfo>,
    pub sampled_images: Vec<RenderGraphImageUsageId>,
}

#[derive(Clone, Copy, Debug, PartialEq, Eq, Structural)]
pub struct RenderGraphInputImage {
    pub usage: RenderGraphImageUsageId,
    pub specification: RenderGraphImageSpecification,
}

/// An image the graph writes for the caller. `dst_image` identifies the caller's image view
/// and `final_layout` is the layout it must be left in.
#[derive(Clone, Copy, Debug, PartialEq, Eq, Structural)]
pub struct RenderGraphOutputImage {
    pub output_image_id: RenderGraphOutputImageId,
    pub usage: RenderGraphImageUsageId,
    pub specification: RenderGraphImageSpecification,
    pub final_layout: i32,
    pub dst_image: u64,
}

/// The description of a render graph: nodes, images and their versions, and the usages that
/// connect them.
#[derive(Clone, Debug)]
pub struct RenderGraphBuilder {
    pub nodes: Vec<RenderGraphNode>,
    pub image_resources: Vec<RenderGraphImageResource>,
    pub image_usages: Vec<RenderGraphImageUsage>,
    pub input_images: Vec<RenderGraphInputImage>,
    pub output_images: Vec<RenderGraphOutputImage>,
}

impl RenderGraphNode {
    /// Every usage id the node mentions is below `n`.
    pub open spec fn usages_below(&self, n: nat) -> bool {
        &&& forall|i: int|
            0 <= i < self.image_creates@.len() ==> (#[trigger] self.image_creates@[i]).image.0 < n
        &&& forall|i: int|
            0 <= i < self.image_reads@.len() ==> (#[trigger] self.image_reads@[i]).image.0 < n
        &&& forall|i: int|
            0 <= i < self.image_modifies@.len() ==> (#[trigger] self.image_modifies@[i]).input.0 < n
                && self.image_modifies@[i].output.0 < n
        &&& forall|i: int|
            0 <= i < self.sampled_images@.len() ==> (#[trigger] self.sampled_images@[i]).0 < n
        &&& forall|i: int|
            0 <= i < self.color_attachments@.len() && (#[trigger] self.color_attachments@[i]) is Some
                ==> {
                let c = self.color_attachments@[i]->0;
                &&& (c.read_image is Some ==> (c.read_image->0).0 < n)
                &&& (c.write_image is Some ==> (c.write_image->0).0 < n)
            }
        &&& forall|i: int|
            0 <= i < self.resolve_attachments@.len() && (#[trigger] self.resolve_attachments@[i]) is Some
                ==> self.resolve_attachments@[i]->0.write_image.0 < n
        &&& (self.depth_attachment is Some ==> {
            let d = self.depth_attachment->0;
            &&& (d.read_image is Some ==> (d.read_image->0).0 < n)
            &&& (d.write_image is Some ==> (d.write_image->0).0 < n)
        })
    }
}

impl RenderGraphBuilder {
    pub open spec fn spec_version(&self, u: RenderGraphImageUsageId) -> RenderGraphImageVersionId {
        self.image_usages@[u.0 as int].version
    }

    /// The version of the image that usage `u` refers to.
    pub open spec fn spec_version_info(&self, u: RenderGraphImageUsageId) -> RenderGraphImageResourceVersionInfo {
        let v = self.spec_version(u);
        self.image_resources@[v.index as int].versions@[v.version as int]
    }

    /// The node that writes the image version that usage `u` refers to.
    pub open spec fn spec_creator(&self, u: RenderGraphImageUsageId) -> RenderGraphNodeId {
        self.spec_version_info(u).creator_node
    }

    pub open spec fn spec_node(&self, id: RenderGraphNodeId) -> RenderGraphNode {
        self.nodes@[id.0 as int]
    }

    pub open spec fn version_info_wf(&self, info: RenderGraphImageResourceVersionInfo) -> bool {
        &&& info.creator_node.0 < self.nodes@.len()
        &&& info.create_usage.0 < self.image_usages@.len()
        &&& forall|k: int|
            0 <= k < info.read_usages@.len() ==> (#[trigger] info.read_usages@[k]).0
                < self.image_usages@.len()
    }

    /// Every id in the graph refers to something that exists.
    pub open spec fn wf(&self) -> bool {
        &&& forall|i: int|
            0 <= i < self.nodes@.len() ==> (#[trigger] self.nodes@[i]).id.0 == i
                && self.nodes@[i].usages_below(self.image_usages@.len())
        &&& forall|u: int|
            0 <= u < self.image_usages@.len() ==> {
                let v = (#[trigger] self.image_usages@[u]).version;
                &&& v.index < self.image_resources@.len()
                &&& v.version < self.image_resources@[v.index as int].versions@.len()
            }
        &&& forall|r: int, v: int|
            0 <= r < self.image_resources@.len() && 0 <= v
                < self.image_resources@[r].versions@.len() ==> self.version_info_wf(
                #[trigger] self.image_resources@[r].versions@[v],
            )
        &&& forall|i: int|
            0 <= i < self.input_images@.len() ==> (#[trigger] self.input_images@[i]).usage.0
                < self.image_usages@.len()
        &&& forall|i: int|
            0 <= i < self.output_images@.len() ==> (#[trigger] self.output_images@[i]).usage.0
                < self.image_usages@.len()
    }

    /// The facts about a usage id that follow from well-formedness.
    pub proof fn lemma_usage_wf(&self, u: RenderGraphImageUsageId)
        requires
            self.wf(),
            u.0 < self.image_usages@.len(),
        ensures
            self.spec_version(u).index < self.image_resources@.len(),
            self.spec_version(u).version < self.image_resources@[self.spec_version(
                u,
            ).index as int].versions@.len(),
            self.version_info_wf(self.spec_version_info(u)),
            self.spec_creator(u).0 < self.nodes@.len(),
    {
        let v = self.image_usages@[u.0 as int].version;
        assert(self.version_info_wf(self.image_resources@[v.index as int].versions@[v.version as int]));
    }

    pub fn node(&self, id: RenderGraphNodeId) -> (r: &RenderGraphNode)
        requires
            id.0 < self.nodes@.len(),
        ensures
            *r == self.spec_node(id),
    {
        &self.nodes[id.0]
    }

    pub fn image_version_info(&self, u: RenderGraphImageUsageId) -> (r:
        &RenderGraphImageResourceVersionInfo)
        requires
            self.wf(),
            u.0 < self.image_usages@.len(),
        ensures
            *r == self.spec_version_info(u),
    {
        proof {
            self.lemma_usage_wf(u);
        }
        let v = self.image_usages[u.0].version;
        &self.image_resources[v.index].versions[v.version]
    }

    /// The usage that writes the image version that `u` refers to.
    pub fn get_create_usage(&self, u: RenderGraphImageUsageId) -> (r: RenderGraphImageUsageId)
        requires
            self.wf(),
            u.0 < self.image_usages@.len(),
        ensures
            r == self.spec_version_info(u).create_usage,
            r.0 < self.image_usages@.len(),
    {
        proof {
            self.lemma_usage_wf(u);
        }
        self.image_version_info(u).create_usage
    }
}


/// The view type of a plain two-dimensional image (`VK_IMAGE_VIEW_TYPE_2D`).
pub const IMAGE_VIEW_TYPE_2D: i32 = 1;

impl RenderGraphNode {
    pub proof fn lemma_usages_below_grows(&self, n: nat, m: nat)
        requires
            self.usages_below(n),
            n <= m,
        ensures
            self.usages_below(m),
    {
    }
}

impl RenderGraphBuilder {
    /// Adds a resolve attachment at `resolve_attachment_index` of `node_id`: a new image,
    /// created by the node with the given constraint. Returns the usage that writes it.
    pub fn create_resolve_attachment(
        &mut self,
        node_id: RenderGraphNodeId,
        resolve_attachment_index: usize,
        constraint: RenderGraphImageConstraint,
    ) -> (image: RenderGraphImageUsageId)
        requires
            old(self).wf(),
            node_id.0 < old(self).nodes@.len(),
            old(self).image_usages@.len() < usize::MAX,
        ensures
            final(self).wf(),
            image.0 == old(self).image_usages@.len(),
            final(self).image_usages@.len() == old(self).image_usages@.len() + 1,
            final(self).image_usages@.take(old(self).image_usages@.len() as int) == old(self).image_usages@,
            final(self).nodes@.len() == old(self).nodes@.len(),
            final(self).input_images == old(self).input_images,
            final(self).output_images == old(self).output_images,
            final(self).spec_creator(image) == node_id,
            final(self).spec_version_info(image).create_usage == image,
            final(self).spec_version_info(image).read_usages@.len() == 0,
            resolve_attachment_index < final(self).spec_node(node_id).resolve_attachments@.len(),
            old(self).spec_node(node_id).resolve_attachments@.len() <= final(self).spec_node(node_id).resolve_attachments@.len(),
            final(self).spec_node(node_id).resolve_attachments@[resolve_attachment_index as int]
                == Some(RenderGraphPassResolveAttachmentInfo { write_image: image }),
            forall|i: int| 0 <= i < old(self).spec_node(node_id).resolve_attachments@.len() && i != resolve_attachment_index
                ==> #[trigger] final(self).spec_node(node_id).resolve_attachments@[i] == old(self).spec_node(node_id).resolve_attachments@[i],
            final(self).spec_version(image).index == old(self).image_resources@.len(),
            final(self).image_resources@.len() == old(self).image_resources@.len() + 1,
            forall|v: RenderGraphImageVersionId| #[trigger] old(self).valid_version(v) ==> final(self).valid_version(v)
                && final(self).spec_version_at(v) == old(self).spec_version_at(v),
            final(self).spec_node(node_id).color_attachments == old(self).spec_node(node_id).color_attachments,
            final(self).spec_node(node_id).depth_attachment == old(self).spec_node(node_id).depth_attachment,
            forall|i: int| 0 <= i < old(self).nodes@.len() && i != node_id.0 ==> final(self).nodes@[i] == old(self).nodes@[i],
            forall|u: RenderGraphImageUsageId| u.0 < old(self).image_usages@.len() ==> #[trigger] final(self).spec_version_info(u) == old(self).spec_version_info(u),
    {
        let image = RenderGraphImageUsageId(self.image_usages.len());
        let resource_index = self.image_resources.len();
        let ghost old_self = *self;
        self.image_usages.push(
            RenderGraphImageUsage {
                user: RenderGraphImageUser::Node(node_id),
                usage_type: RenderGraphImageUsageType::Create,
                version: RenderGraphImageVersionId { index: resource_index, version: 0 },
                view_type: IMAGE_VIEW_TYPE_2D,
                subresource_range: RenderGraphImageSubresourceRange::AllMipsAllLayers,
            },
        );
        let mut versions: Vec<RenderGraphImageResourceVersionInfo> = Vec::new();
        versions.push(
            RenderGraphImageResourceVersionInfo {
                creator_node: node_id,
                create_usage: image,
                read_usages: Vec::new(),
            },
        );
        self.image_resources.push(RenderGraphImageResource { name: None, versions });

        let mut node = RenderGraphNode {
            id: node_id,
            name: None,
            image_creates: Vec::new(),
            image_reads: Vec::new(),
            image_modifies: Vec::new(),
            color_attachments: Vec::new(),
            resolve_attachments: Vec::new(),
            depth_attachment: None,
            sampled_images: Vec::new(),
        };
        self.nodes.set_and_swap(node_id.0, &mut node);
        let ghost old_node = node;
        proof {
            assert(old_node == old_self.nodes@[node_id.0 as int]);
            assert(old_node.usages_below(old_self.image_usages@.len()));
            old_node.lemma_usages_below_grows(old_self.image_usages@.len() as nat, (old_self.image_usages@.len() + 1) as nat);
        }
        node.image_creates.push(RenderGraphImageCreate { image, constraint });
        proof {
            assert forall|i: int| 0 <= i < node.image_creates@.len() implies (#[trigger] node.image_creates@[i]).image.0 < old_self.image_usages@.len() + 1 by {
                if i < old_node.image_creates@.len() {
                    assert(node.image_creates@[i] == old_node.image_creates@[i]);
                }
            }
        }
        while node.resolve_attachments.len() <= resolve_attachment_index
            invariant
                node.usages_below(old_self.image_usages@.len() + 1),
                node.resolve_attachments@.len() >= old_node.resolve_attachments@.len(),
                forall|i: int| 0 <= i < old_node.resolve_attachments@.len() ==> #[trigger] node.resolve_attachments@[i] == old_node.resolve_attachments@[i],
                node.id == old_node.id,
                old_node.id == node_id,
                node.color_attachments == old_node.color_attachments,
                node.depth_attachment == old_node.depth_attachment,
            decreases resolve_attachment_index + 1 - node.resolve_attachments@.len(),
        {
            node.resolve_attachments.push(None);
        }
        node.resolve_attachments.set(
            resolve_attachment_index,
            Some(RenderGraphPassResolveAttachmentInfo { write_image: image }),
        );
        proof {
            assert forall|i: int| 0 <= i < node.resolve_attachments@.len() && (#[trigger] node.resolve_attachments@[i]) is Some
                implies node.resolve_attachments@[i]->0.write_image.0 < old_self.image_usages@.len() + 1 by {
            }
        }
        self.nodes.set(node_id.0, node);
        proof {
            let n2 = self.image_usages@.len();
            assert(old_self.nodes@[node_id.0 as int].usages_below(old_self.image_usages@.len()));
            assert forall|i: int| 0 <= i < self.nodes@.len() implies (#[trigger] self.nodes@[i]).id.0 == i
                && self.nodes@[i].usages_below(n2) by {
                if i != node_id.0 {
                    assert(self.nodes@[i] == old_self.nodes@[i]);
                    assert(old_self.nodes@[i].usages_below(old_self.image_usages@.len()));
                }
            }
            assert forall|u: int| 0 <= u < self.image_usages@.len() implies {
                let v = (#[trigger] self.image_usages@[u]).version;
                &&& v.index < self.image_resources@.len()
                &&& v.version < self.image_resources@[v.index as int].versions@.len()
            } by {
                if u < old_self.image_usages@.len() {
                    assert(self.image_usages@[u] == old_self.image_usages@[u]);
                    let v = old_self.image_usages@[u].version;
                    assert(self.image_resources@[v.index as int] == old_self.image_resources@[v.index as int]);
                }
            }
            assert forall|r: int, v: int|
                0 <= r < self.image_resources@.len() && 0 <= v < self.image_resources@[r].versions@.len()
                implies self.version_info_wf(#[trigger] self.image_resources@[r].versions@[v]) by {
                if r < old_self.image_resources@.len() {
                    assert(self.image_resources@[r] == old_self.image_resources@[r]);
                    assert(old_self.version_info_wf(old_self.image_resources@[r].versions@[v]));
                }
            }
            assert forall|u: RenderGraphImageUsageId| u.0 < old_self.image_usages@.len() implies #[trigger] self.spec_version_info(u) == old_self.spec_version_info(u) by {
                assert(self.image_usages@[u.0 as int] == old_self.image_usages@[u.0 as int]);
                let v = old_self.image_usages@[u.0 as int].version;
                assert(self.image_resources@[v.index as int] == old_self.image_resources@[v.index as int]);
            }
            assert(self.image_usages@.take(old_self.image_usages@.len() as int) =~= old_self.image_usages@);
        }
        image
    }
}

impl RenderGraphBuilder {
    pub open spec fn valid_version(&self, v: RenderGraphImageVersionId) -> bool {
        &&& v.index < self.image_resources@.len()
        &&& v.version < self.image_resources@[v.index as int].versions@.len()
    }

    pub open spec fn spec_version_at(&self, v: RenderGraphImageVersionId) -> RenderGraphImageResourceVersionInfo {
        self.image_resources@[v.index as int].versions@[v.version as int]
    }

    /// Replaces the read usages of version `v` with `read_usages`.
    fn set_read_usages(&mut self, v: RenderGraphImageVersionId, read_usages: Vec<RenderGraphImageUsageId>)
        requires
            old(self).wf(),
            old(self).valid_version(v),
            forall|k: int| 0 <= k < read_usages@.len() ==> (#[trigger] read_usages@[k]).0 < old(self).image_usages@.len(),
        ensures
            final(self).wf(),
            final(self).nodes == old(self).nodes,
            final(self).image_usages == old(self).image_usages,
            final(self).input_images == old(self).input_images,
            final(self).output_images == old(self).output_images,
            final(self).image_resources@.len() == old(self).image_resources@.len(),
            forall|r: int| 0 <= r < old(self).image_resources@.len() ==> (#[trigger] final(self).image_resources@[r]).versions@.len() == old(self).image_resources@[r].versions@.len(),
            final(self).spec_version_at(v).read_usages@ == read_usages@,
            final(self).spec_version_at(v).creator_node == old(self).spec_version_at(v).creator_node,
            final(self).spec_version_at(v).create_usage == old(self).spec_version_at(v).create_usage,
            forall|w: RenderGraphImageVersionId| old(self).valid_version(w) && w != v ==> #[trigger] final(self).spec_version_at(w) == old(self).spec_version_at(w),
    {
        let ghost old_self = *self;
        let mut res = RenderGraphImageResource { name: None, versions: Vec::new() };
        self.image_resources.set_and_swap(v.index, &mut res);
        let ghost old_res = res;
        let mut ver = RenderGraphImageResourceVersionInfo {
            creator_node: RenderGraphNodeId(0),
            create_usage: RenderGraphImageUsageId(0),
            read_usages: Vec::new(),
        };
        res.versions.set_and_swap(v.version, &mut ver);
        ver.read_usages = read_usages;
        res.versions.set(v.version, ver);
        self.image_resources.set(v.index, res);
        proof {
            assert forall|r: int, x: int|
                0 <= r < self.image_resources@.len() && 0 <= x < self.image_resources@[r].versions@.len()
                implies self.version_info_wf(#[trigger] self.image_resources@[r].versions@[x]) by {
                if r != v.index || x != v.version {
                    assert(self.image_resources@[r].versions@[x] == old_self.image_resources@[r].versions@[x]);
                    assert(old_self.version_info_wf(old_self.image_resources@[r].versions@[x]));
                } else {
                    assert(old_self.version_info_wf(old_self.image_resources@[r].versions@[x]));
                }
            }
            assert forall|u: int| 0 <= u < self.image_usages@.len() implies {
                let vv = (#[trigger] self.image_usages@[u]).version;
                &&& vv.index < self.image_resources@.len()
                &&& vv.version < self.image_resources@[vv.index as int].versions@.len()
            } by {
                let vv = self.image_usages@[u].version;
                assert(old_self.image_usages@[u] == self.image_usages@[u]);
            }
            assert forall|w: RenderGraphImageVersionId| old_self.valid_version(w) && w != v implies #[trigger] self.spec_version_at(w) == old_self.spec_version_at(w) by {
                if w.index == v.index {
                    assert(w.version != v.version);
                }
            }
            assert forall|r: int| 0 <= r < old_self.image_resources@.len() implies (#[trigger] self.image_resources@[r]).versions@.len() == old_self.image_resources@[r].versions@.len() by {
            }
        }
    }

    /// Makes `usage` read version `to` instead of version `from`.
    pub fn move_read_usage_to_image(
        &mut self,
        usage: RenderGraphImageUsageId,
        from: RenderGraphImageVersionId,
        to: RenderGraphImageVersionId,
    )
        requires
            old(self).wf(),
            usage.0 < old(self).image_usages@.len(),
            old(self).valid_version(from),
            old(self).valid_version(to),
        ensures
            final(self).wf(),
            final(self).nodes == old(self).nodes,
            final(self).input_images == old(self).input_images,
            final(self).output_images == old(self).output_images,
            final(self).image_usages@.len() == old(self).image_usages@.len(),
            final(self).image_resources@.len() == old(self).image_resources@.len(),
            final(self).spec_version(usage) == to,
            final(self).image_usages@[usage.0 as int] == (RenderGraphImageUsage { version: to, ..old(self).image_usages@[usage.0 as int] }),
            forall|u: int| 0 <= u < old(self).image_usages@.len() && u != usage.0 ==> #[trigger] final(self).image_usages@[u] == old(self).image_usages@[u],
            from != to ==> !final(self).spec_version_at(from).read_usages@.contains(usage),
            from != to ==> forall|x: RenderGraphImageUsageId| #[trigger] final(self).spec_version_at(from).read_usages@.contains(x)
                ==> old(self).spec_version_at(from).read_usages@.contains(x),
            final(self).spec_version_at(to).read_usages@.contains(usage),
            forall|w: RenderGraphImageVersionId| old(self).valid_version(w) ==> final(self).valid_version(w)
                && (#[trigger] final(self).spec_version_at(w)).creator_node == old(self).spec_version_at(w).creator_node
                && final(self).spec_version_at(w).create_usage == old(self).spec_version_at(w).create_usage,
            forall|w: RenderGraphImageVersionId| old(self).valid_version(w) && w != from && w != to ==> #[trigger] final(self).spec_version_at(w) == old(self).spec_version_at(w),
    {
        let ghost s0 = *self;
        let from_reads = &self.image_resources[from.index].versions[from.version].read_usages;
        let mut kept: Vec<RenderGraphImageUsageId> = Vec::new();
        let nreads = from_reads.len();
        proof {
            assert(s0.version_info_wf(s0.spec_version_at(from)));
        }
        for k in 0..nreads
            invariant
                nreads == from_reads@.len(),
                *from_reads == s0.spec_version_at(from).read_usages,
                s0.version_info_wf(s0.spec_version_at(from)),
                forall|j: int| 0 <= j < kept@.len() ==> (#[trigger] kept@[j]).0 < s0.image_usages@.len() && kept@[j] != usage,
                forall|j: int| 0 <= j < kept@.len() ==> from_reads@.contains(#[trigger] kept@[j]),
        {
            if from_reads[k] != usage {
                proof {
                    assert(from_reads@[k as int] == from_reads[k as int]);
                }
                kept.push(from_reads[k]);
            }
        }
        self.set_read_usages(from, kept);
        let ghost s1 = *self;
        let mut to_reads = self.image_resources[to.index].versions[to.version].read_usages.clone();
        proof {
            assert(s1.version_info_wf(s1.spec_version_at(to)));
            assert(to_reads@ == s1.spec_version_at(to).read_usages@);
        }
        to_reads.push(usage);
        proof {
            assert forall|k: int| 0 <= k < to_reads@.len() implies (#[trigger] to_reads@[k]).0 < s1.image_usages@.len() by {
                if k < to_reads@.len() - 1 {
                    assert(to_reads@[k] == s1.spec_version_at(to).read_usages@[k]);
                }
            }
        }
        self.set_read_usages(to, to_reads);
        let ghost s2 = *self;
        let mut u = self.image_usages[usage.0];
        u.version = to;
        self.image_usages.set(usage.0, u);
        proof {
            assert(self.image_resources == s2.image_resources);
            assert(self.spec_version_at(to).read_usages@.last() == usage);
            assert forall|uu: int| 0 <= uu < self.image_usages@.len() implies {
                let vv = (#[trigger] self.image_usages@[uu]).version;
                &&& vv.index < self.image_resources@.len()
                &&& vv.version < self.image_resources@[vv.index as int].versions@.len()
            } by {
                if uu != usage.0 {
                    assert(self.image_usages@[uu] == s0.image_usages@[uu]);
                }
            }
            assert forall|w: RenderGraphImageVersionId| s0.valid_version(w) implies self.valid_version(w)
                && (#[trigger] self.spec_version_at(w)).creator_node == s0.spec_version_at(w).creator_node
                && self.spec_version_at(w).create_usage == s0.spec_version_at(w).create_usage by {
                assert(s1.valid_version(w));
                assert(s2.valid_version(w));
                assert(self.spec_version_at(w) == s2.spec_version_at(w));
                if w != to {
                    assert(s2.spec_version_at(w) == s1.spec_version_at(w));
                }
            }
            if from != to {
                assert(s1.valid_version(from));
                assert(s2.spec_version_at(from) == s1.spec_version_at(from));
                assert(self.spec_version_at(from) == s1.spec_version_at(from));
            }
            assert forall|w: RenderGraphImageVersionId| s0.valid_version(w) && w != from && w != to implies #[trigger] self.spec_version_at(w) == s0.spec_version_at(w) by {
                assert(s1.valid_version(w));
                assert(s2.spec_version_at(w) == s1.spec_version_at(w));
            }
        }
    }
}
} // verus!
