use vstd::prelude::*;
use crate::image_spec::{Extent2D, RenderGraphImageSpecification, SAMPLE_COUNT_1};
use crate::graph::{
    RenderGraphBuilder, RenderGraphNode, RenderGraphNodeId, RenderGraphImageUsageId, VirtualImageId,
    PhysicalImageId, PhysicalImageViewId, AttachmentClearValue, RenderGraphPassColorAttachmentInfo,
    RenderGraphPassDepthAttachmentInfo,
};
use crate::constraints::DetermineImageConstraintsResult;
use crate::virtual_images::AssignVirtualImagesResult;
use crate::plan_error::RenderGraphPlanError;

verus! {

/// `VK_ATTACHMENT_LOAD_OP_LOAD`
pub const LOAD_OP_LOAD: i32 = 0;
/// `VK_ATTACHMENT_LOAD_OP_CLEAR`
pub const LOAD_OP_CLEAR: i32 = 1;
/// `VK_ATTACHMENT_LOAD_OP_DONT_CARE`
pub const LOAD_OP_DONT_CARE: i32 = 2;
/// `VK_ATTACHMENT_STORE_OP_STORE`
pub const STORE_OP_STORE: i32 = 0;
/// `VK_ATTACHMENT_STORE_OP_DONT_CARE`
pub const STORE_OP_DONT_CARE: i32 = 1;
/// `VK_FORMAT_UNDEFINED`
pub const FORMAT_UNDEFINED: i32 = 0;
/// `VK_IMAGE_LAYOUT_UNDEFINED`
pub const IMAGE_LAYOUT_UNDEFINED: i32 = 0;

/// An attachment of a renderpass.
#[derive(Clone, Copy, Debug, PartialEq, Eq, Structural)]
pub struct RenderGraphPassAttachment {
    pub usage: RenderGraphImageUsageId,
    pub virtual_image: VirtualImageId,
    pub image: Option<PhysicalImageId>,
    pub image_view: Option<PhysicalImageViewId>,
    pub load_op: i32,
    pub stencil_load_op: i32,
    pub store_op: i32,
    pub stencil_store_op: i32,
    pub clear_color: Option<AttachmentClearValue>,
    pub format: i32,
    pub samples: u32,
    pub initial_layout: i32,
    pub final_layout: i32,
}

/// A subpass: the node it runs and, for each of the node's attachment slots, the index of the
/// pass attachment bound there.
#[derive(Clone, Debug)]
pub struct RenderGraphSubpass {
    pub node: RenderGraphNodeId,
    pub color_attachments: Vec<Option<usize>>,
    pub resolve_attachments: Vec<Option<usize>>,
    pub depth_attachment: Option<usize>,
}

/// A layout transition to run before a pass.
#[derive(Clone, Copy, Debug, PartialEq, Eq, Structural)]
pub struct PrepassImageBarrier {
    pub image: PhysicalImageId,
    pub old_layout: i32,
    pub new_layout: i32,
    pub src_access: u32,
    pub dst_access: u32,
    pub subresource_range: crate::graph::ImageSubresourceRange,
}

/// The barrier to run before a pass when its layout transitions cannot be left to the pass.
#[derive(Clone, Debug)]
pub struct PrepassBarrier {
    pub src_stage: u32,
    pub dst_stage: u32,
    pub image_barriers: Vec<PrepassImageBarrier>,
}

#[derive(Clone, Debug)]
pub struct RenderGraphPass {
    pub attachments: Vec<RenderGraphPassAttachment>,
    pub subpasses: Vec<RenderGraphSubpass>,
    pub extents: Option<Extent2D>,
    pub pre_pass_barrier: Option<PrepassBarrier>,
}

/// Whether the planner may put the two nodes in one renderpass. Merging is not supported yet.
pub fn can_merge_nodes(
    graph: &RenderGraphBuilder,
    before_node_id: RenderGraphNodeId,
    after_node_id: RenderGraphNodeId,
    _image_constraints: &DetermineImageConstraintsResult,
    _virtual_images: &AssignVirtualImagesResult,
) -> (r: bool)
    requires
        before_node_id.0 < graph.nodes@.len(),
        after_node_id.0 < graph.nodes@.len(),
    ensures
        !r,
{
    let _before_node = graph.node(before_node_id);
    let _after_node = graph.node(after_node_id);
    false
}

/// A node gets a subpass when it has attachment slots.
pub open spec fn has_attachments(node: RenderGraphNode) -> bool {
    node.color_attachments@.len() > 0 || node.depth_attachment is Some
}

/// The nodes of `order` that get a renderpass, in order.
pub open spec fn pass_nodes(g: RenderGraphBuilder, order: Seq<RenderGraphNodeId>, n: nat) -> Seq<RenderGraphNodeId>
    decreases n,
{
    if n == 0 {
        Seq::empty()
    } else {
        let prev = pass_nodes(g, order, (n - 1) as nat);
        if has_attachments(g.spec_node(order[n - 1])) {
            prev.push(order[n - 1])
        } else {
            prev
        }
    }
}

/// Attachment `a` describes the image its usage was given: the usage's virtual image, format,
/// sample count and size, with no physical image chosen yet.
pub open spec fn attachment_matches(
    a: RenderGraphPassAttachment,
    res: DetermineImageConstraintsResult,
    virt: AssignVirtualImagesResult,
    extents: Option<Extent2D>,
    surface: Extent2D,
) -> bool {
    let spec = res.spec_specification(a.usage);
    &&& a.usage.0 < virt.usage_to_virtual@.len()
    &&& virt.usage_to_virtual@[a.usage.0 as int] == Some(a.virtual_image)
    &&& spec is Some
    &&& a.format == (spec->0).format
    &&& a.samples == (spec->0).samples
    &&& extents == Some((spec->0).extents.spec_extent_2d(surface))
    &&& a.image is None
    &&& a.image_view is None
}

/// The attachments describe their usages and no virtual image appears twice.
pub open spec fn attachments_wf(
    atts: Seq<RenderGraphPassAttachment>,
    res: DetermineImageConstraintsResult,
    virt: AssignVirtualImagesResult,
    extents: Option<Extent2D>,
    surface: Extent2D,
) -> bool {
    &&& forall|k: int| 0 <= k < atts.len() ==> attachment_matches(#[trigger] atts[k], res, virt, extents, surface)
    &&& forall|k1: int, k2: int| 0 <= k1 < atts.len() && 0 <= k2 < atts.len() && k1 != k2 ==> #[trigger] atts[k1].virtual_image != #[trigger] atts[k2].virtual_image
}

/// The subpass's attachment indices refer to attachments of the pass.
pub open spec fn subpass_indices_below(s: RenderGraphSubpass, n: nat) -> bool {
    &&& forall|i: int| 0 <= i < s.color_attachments@.len() && (#[trigger] s.color_attachments@[i]) is Some ==> s.color_attachments@[i]->0 < n
    &&& forall|i: int| 0 <= i < s.resolve_attachments@.len() && (#[trigger] s.resolve_attachments@[i]) is Some ==> s.resolve_attachments@[i]->0 < n
    &&& (s.depth_attachment is Some ==> s.depth_attachment->0 < n)
}

/// A pass built for one node.
pub open spec fn pass_wf(
    p: RenderGraphPass,
    node: RenderGraphNodeId,
    res: DetermineImageConstraintsResult,
    virt: AssignVirtualImagesResult,
    surface: Extent2D,
) -> bool {
    &&& p.subpasses@.len() == 1
    &&& p.subpasses@[0].node == node
    &&& subpass_indices_below(p.subpasses@[0], p.attachments@.len())
    &&& attachments_wf(p.attachments@, res, virt, p.extents, surface)
    &&& p.attachments@.len() > 0 ==> p.extents is Some
    &&& p.pre_pass_barrier is None
}

fn new_attachment(usage: RenderGraphImageUsageId, virtual_image: VirtualImageId) -> (r: RenderGraphPassAttachment)
    ensures
        r.usage == usage,
        r.virtual_image == virtual_image,
        r.image is None,
        r.image_view is None,
        r.load_op == LOAD_OP_DONT_CARE,
        r.stencil_load_op == LOAD_OP_DONT_CARE,
        r.store_op == STORE_OP_DONT_CARE,
        r.stencil_store_op == STORE_OP_DONT_CARE,
        r.clear_color is None,
        r.format == FORMAT_UNDEFINED,
        r.samples == SAMPLE_COUNT_1,
        r.initial_layout == IMAGE_LAYOUT_UNDEFINED,
        r.final_layout == IMAGE_LAYOUT_UNDEFINED,
{
    RenderGraphPassAttachment {
        usage,
        virtual_image,
        image: None,
        image_view: None,
        load_op: LOAD_OP_DONT_CARE,
        stencil_load_op: LOAD_OP_DONT_CARE,
        store_op: STORE_OP_DONT_CARE,
        stencil_store_op: STORE_OP_DONT_CARE,
        clear_color: None,
        format: FORMAT_UNDEFINED,
        samples: SAMPLE_COUNT_1,
        initial_layout: IMAGE_LAYOUT_UNDEFINED,
        final_layout: IMAGE_LAYOUT_UNDEFINED,
    }
}

/// Finds the attachment of `virtual_image`, or appends a new one for `usage`. Returns its index
/// and whether it was appended.
fn find_or_insert_attachment(
    attachments: &mut Vec<RenderGraphPassAttachment>,
    usage: RenderGraphImageUsageId,
    virtual_image: VirtualImageId,
) -> (r: (usize, bool))
    ensures
        r.0 < final(attachments)@.len(),
        final(attachments)@[r.0 as int].virtual_image == virtual_image,
        r.1 == (forall|k: int| 0 <= k < old(attachments)@.len() ==> (#[trigger] old(attachments)@[k]).virtual_image != virtual_image),
        !r.1 ==> final(attachments)@ == old(attachments)@,
        r.1 ==> final(attachments)@ == old(attachments)@.push(new_attachment_spec(usage, virtual_image)),
        r.1 ==> r.0 == old(attachments)@.len(),
{
    let n = attachments.len();
    for k in 0..n
        invariant
            n == attachments@.len(),
            forall|j: int| 0 <= j < k ==> (#[trigger] attachments@[j]).virtual_image != virtual_image,
    {
        if attachments[k].virtual_image == virtual_image {
            return (k, false);
        }
    }
    attachments.push(new_attachment(usage, virtual_image));
    proof {
        let a = attachments@[n as int];
        assert(a == new_attachment_spec(usage, virtual_image));
    }
    (n, true)
}

pub open spec fn new_attachment_spec(usage: RenderGraphImageUsageId, virtual_image: VirtualImageId) -> RenderGraphPassAttachment {
    RenderGraphPassAttachment {
        usage,
        virtual_image,
        image: None,
        image_view: None,
        load_op: LOAD_OP_DONT_CARE,
        stencil_load_op: LOAD_OP_DONT_CARE,
        store_op: STORE_OP_DONT_CARE,
        stencil_store_op: STORE_OP_DONT_CARE,
        clear_color: None,
        format: FORMAT_UNDEFINED,
        samples: SAMPLE_COUNT_1,
        initial_layout: IMAGE_LAYOUT_UNDEFINED,
        final_layout: IMAGE_LAYOUT_UNDEFINED,
    }
}

/// Records the size of an attachment as the size of the pass; all attachments of a pass must
/// have the same size.
fn set_extent(
    extents: &mut Option<Extent2D>,
    specification: &RenderGraphImageSpecification,
    surface: Extent2D,
    node: RenderGraphNodeId,
) -> (r: Result<(), RenderGraphPlanError>)
    ensures
        r is Ok ==> *final(extents) == Some(specification.extents.spec_extent_2d(surface)),
        r is Ok ==> ((*old(extents)) is Some ==> *final(extents) == *old(extents)),
        r is Err ==> r->Err_0 == RenderGraphPlanError::MismatchedPassExtents(node) && *final(extents) == *old(extents),
        r is Err <==> ((*old(extents)) is Some && (*old(extents))->0 != specification.extents.spec_extent_2d(surface)),
{
    let size = specification.extents.into_extent_2d(surface);
    match extents {
        Some(e) => {
            if *e != size {
                return Err(RenderGraphPlanError::MismatchedPassExtents(node));
            }
            Ok(())
        },
        None => {
            *extents = Some(size);
            Ok(())
        },
    }
}


/// Binds the image of `usage` as an attachment of `pass`: checks its size against the pass,
/// and adds an attachment for its virtual image unless the pass has one already. A new
/// attachment takes the usage's format and sample count. Returns the attachment index, whether
/// it was added, and the usage's specification.
fn add_attachment(
    res: &DetermineImageConstraintsResult,
    virt: &AssignVirtualImagesResult,
    surface: Extent2D,
    node_id: RenderGraphNodeId,
    pass: &mut RenderGraphPass,
    usage: RenderGraphImageUsageId,
) -> (r: Result<(usize, bool, RenderGraphImageSpecification), RenderGraphPlanError>)
    requires
        usage.0 < virt.usage_to_virtual@.len(),
        attachments_wf(old(pass).attachments@, *res, *virt, old(pass).extents, surface),
        old(pass).attachments@.len() > 0 ==> old(pass).extents is Some,
    ensures
        final(pass).subpasses == old(pass).subpasses,
        final(pass).pre_pass_barrier == old(pass).pre_pass_barrier,
        attachments_wf(final(pass).attachments@, *res, *virt, final(pass).extents, surface),
        final(pass).attachments@.len() > 0 ==> final(pass).extents is Some,
        old(pass).attachments@.len() <= final(pass).attachments@.len(),
        forall|k: int| 0 <= k < old(pass).attachments@.len() ==> #[trigger] final(pass).attachments@[k] == old(pass).attachments@[k],
        r is Ok ==> {
            let (i, first, spec) = r->Ok_0;
            &&& i < final(pass).attachments@.len()
            &&& res.spec_specification(usage) == Some(spec)
            &&& final(pass).attachments@[i as int].virtual_image == virt.usage_to_virtual@[usage.0 as int]->0
            &&& first ==> final(pass).attachments@[i as int].usage == usage
            &&& first ==> final(pass).attachments@[i as int].load_op == LOAD_OP_DONT_CARE
            &&& first ==> final(pass).attachments@[i as int].stencil_load_op == LOAD_OP_DONT_CARE
            &&& first ==> final(pass).attachments@[i as int].clear_color is None
            &&& first ==> i == old(pass).attachments@.len()
            &&& !first ==> final(pass).attachments@ == old(pass).attachments@
        },
        match spec_add_attachment(old(pass).attachments@, old(pass).extents, *res, *virt, surface, node_id, usage) {
            Err(e) => r == Err::<(usize, bool, RenderGraphImageSpecification), RenderGraphPlanError>(e),
            Ok(added) => r is Ok && r->Ok_0.0 == added.index && r->Ok_0.1 == added.first
                && final(pass).attachments@ == added.attachments && final(pass).extents == added.extents,
        },
{
    let virtual_image = match virt.usage_to_virtual[usage.0] {
        Some(v) => v,
        None => {
            return Err(RenderGraphPlanError::UnassignedImage(usage));
        },
    };
    let spec = match res.specification(usage) {
        Some(s) => s,
        None => {
            return Err(RenderGraphPlanError::MissingSpecification(usage));
        },
    };
    let ghost old_extents = pass.extents;
    match set_extent(&mut pass.extents, &spec, surface, node_id) {
        Ok(()) => {},
        Err(e) => {
            return Err(e);
        },
    }
    let ghost before = pass.attachments@;
    proof {
        assert forall|k: int| 0 <= k < before.len() implies attachment_matches(#[trigger] before[k], *res, *virt, pass.extents, surface) by {
            assert(attachment_matches(before[k], *res, *virt, old_extents, surface));
        }
    }
    let (i, first) = find_or_insert_attachment(&mut pass.attachments, usage, virtual_image);
    proof {
        if !first {
            assert(before[i as int].virtual_image == virtual_image);
            let c = choose|c: int| 0 <= c < before.len() && (#[trigger] before[c]).virtual_image == virtual_image;
            assert(before[c].virtual_image == virtual_image);
            if c != i {
                assert(before[c].virtual_image != before[i as int].virtual_image);
            }
            assert(attachment_index_of(before, virtual_image) == i);
        } else {
            assert(!(exists|c: int| 0 <= c < before.len() && (#[trigger] before[c]).virtual_image == virtual_image));
            assert(attachment_index_of(before, virtual_image) == -1);
        }
    }
    if first {
        let mut a = pass.attachments[i];
        a.format = spec.format;
        a.samples = spec.samples;
        pass.attachments.set(i, a);
        proof {
            let atts = pass.attachments@;
            assert forall|k: int| 0 <= k < atts.len() implies attachment_matches(#[trigger] atts[k], *res, *virt, pass.extents, surface) by {
                if k < before.len() {
                    assert(atts[k] == before[k]);
                }
            }
            assert forall|k1: int, k2: int| 0 <= k1 < atts.len() && 0 <= k2 < atts.len() && k1 != k2 implies #[trigger] atts[k1].virtual_image != #[trigger] atts[k2].virtual_image by {
                if k1 < before.len() && k2 < before.len() {
                    assert(atts[k1] == before[k1] && atts[k2] == before[k2]);
                } else if k1 < before.len() {
                    assert(atts[k1] == before[k1]);
                    assert(before[k1].virtual_image != virtual_image);
                } else if k2 < before.len() {
                    assert(atts[k2] == before[k2]);
                    assert(before[k2].virtual_image != virtual_image);
                }
            }
        }
    }
    Ok((i, first, spec))
}

/// Whether the version written at `write_image` is read by anything.
fn is_read_later(graph: &RenderGraphBuilder, write_image: RenderGraphImageUsageId) -> (r: bool)
    requires
        graph.wf(),
        write_image.0 < graph.image_usages@.len(),
    ensures
        r == (graph.spec_version_info(write_image).read_usages@.len() > 0),
{
    graph.image_version_info(write_image).read_usages.len() > 0
}

/// The store operation for an attachment: store what is written if something reads it later.
pub open spec fn spec_store_op(g: RenderGraphBuilder, write_image: Option<RenderGraphImageUsageId>) -> i32 {
    if write_image is Some && g.spec_version_info(write_image->0).read_usages@.len() > 0 {
        STORE_OP_STORE
    } else {
        STORE_OP_DONT_CARE
    }
}

fn store_op(graph: &RenderGraphBuilder, write_image: Option<RenderGraphImageUsageId>) -> (r: i32)
    requires
        graph.wf(),
        write_image is Some ==> (write_image->0).0 < graph.image_usages@.len(),
    ensures
        r == spec_store_op(*graph, write_image),
{
    match write_image {
        Some(w) => if is_read_later(graph, w) {
            STORE_OP_STORE
        } else {
            STORE_OP_DONT_CARE
        },
        None => STORE_OP_DONT_CARE,
    }
}

/// Updates the operations of attachment `i` without touching what `attachments_wf` describes.
fn set_attachment_ops(pass: &mut RenderGraphPass, i: usize, a: RenderGraphPassAttachment, Ghost(res): Ghost<DetermineImageConstraintsResult>, Ghost(virt): Ghost<AssignVirtualImagesResult>, Ghost(surface): Ghost<Extent2D>)
    requires
        i < old(pass).attachments@.len(),
        attachments_wf(old(pass).attachments@, res, virt, old(pass).extents, surface),
        a.usage == old(pass).attachments@[i as int].usage,
        a.virtual_image == old(pass).attachments@[i as int].virtual_image,
        a.format == old(pass).attachments@[i as int].format,
        a.samples == old(pass).attachments@[i as int].samples,
        a.image == old(pass).attachments@[i as int].image,
        a.image_view == old(pass).attachments@[i as int].image_view,
    ensures
        final(pass).attachments@ == old(pass).attachments@.update(i as int, a),
        final(pass).extents == old(pass).extents,
        final(pass).subpasses == old(pass).subpasses,
        final(pass).pre_pass_barrier == old(pass).pre_pass_barrier,
        attachments_wf(final(pass).attachments@, res, virt, final(pass).extents, surface),
{
    let ghost before = pass.attachments@;
    pass.attachments.set(i, a);
    proof {
        let atts = pass.attachments@;
        assert forall|k: int| 0 <= k < atts.len() implies attachment_matches(#[trigger] atts[k], res, virt, pass.extents, surface) by {
            assert(attachment_matches(before[k], res, virt, pass.extents, surface));
        }
        assert forall|k1: int, k2: int| 0 <= k1 < atts.len() && 0 <= k2 < atts.len() && k1 != k2 implies #[trigger] atts[k1].virtual_image != #[trigger] atts[k2].virtual_image by {
            assert(before[k1].virtual_image != before[k2].virtual_image);
        }
    }
}

/// The usage that binds a color or depth attachment slot: the image it reads if any, else the
/// image it writes.
pub open spec fn slot_usage(read_image: Option<RenderGraphImageUsageId>, write_image: Option<RenderGraphImageUsageId>) -> Option<RenderGraphImageUsageId> {
    if read_image is Some {
        read_image
    } else {
        write_image
    }
}

/// Each attachment slot of the node is bound to the pass attachment of its image's virtual
/// image; empty slots stay empty.
pub open spec fn subpass_binds_node(
    p: RenderGraphPass,
    node: RenderGraphNode,
    virt: AssignVirtualImagesResult,
) -> bool {
    let s = p.subpasses@[0];
    &&& s.color_attachments@.len() == node.color_attachments@.len()
    &&& forall|i: int| 0 <= i < node.color_attachments@.len() ==> {
        let slot = #[trigger] node.color_attachments@[i];
        &&& (slot is None ==> s.color_attachments@[i] is None)
        &&& (slot is Some ==> {
            let u = slot_usage((slot->0).read_image, (slot->0).write_image);
            &&& s.color_attachments@[i] is Some
            &&& u is Some
            &&& p.attachments@[s.color_attachments@[i]->0 as int].virtual_image == virt.usage_to_virtual@[(u->0).0 as int]->0
        })
    }
    &&& s.resolve_attachments@.len() == node.resolve_attachments@.len()
    &&& forall|i: int| 0 <= i < node.resolve_attachments@.len() ==> {
        let slot = #[trigger] node.resolve_attachments@[i];
        &&& (slot is None ==> s.resolve_attachments@[i] is None)
        &&& (slot is Some ==> {
            &&& s.resolve_attachments@[i] is Some
            &&& p.attachments@[s.resolve_attachments@[i]->0 as int].virtual_image == virt.usage_to_virtual@[(slot->0).write_image.0 as int]->0
        })
    }
    &&& (node.depth_attachment is None ==> s.depth_attachment is None)
    &&& (node.depth_attachment is Some ==> {
        let u = slot_usage((node.depth_attachment->0).read_image, (node.depth_attachment->0).write_image);
        &&& s.depth_attachment is Some
        &&& u is Some
        &&& p.attachments@[s.depth_attachment->0 as int].virtual_image == virt.usage_to_virtual@[(u->0).0 as int]->0
    })
}

/// The index of the attachment of virtual image `v`, or -1.
pub open spec fn attachment_index_of(atts: Seq<RenderGraphPassAttachment>, v: VirtualImageId) -> int {
    if exists|i: int| 0 <= i < atts.len() && (#[trigger] atts[i]).virtual_image == v {
        choose|i: int| 0 <= i < atts.len() && (#[trigger] atts[i]).virtual_image == v
    } else {
        -1
    }
}

/// The attachments and size of a pass after binding a usage, and where it was bound.
pub struct AddedAttachment {
    pub attachments: Seq<RenderGraphPassAttachment>,
    pub extents: Option<Extent2D>,
    pub index: int,
    pub first: bool,
}

/// Binds the image of `usage`: the pass takes the usage's size (all attachments of a pass
/// must have the same size), and the usage's virtual image gets an attachment unless it has
/// one; a new attachment takes the usage's format and sample count.
pub open spec fn spec_add_attachment(
    atts: Seq<RenderGraphPassAttachment>,
    extents: Option<Extent2D>,
    res: DetermineImageConstraintsResult,
    virt: AssignVirtualImagesResult,
    surface: Extent2D,
    node_id: RenderGraphNodeId,
    usage: RenderGraphImageUsageId,
) -> Result<AddedAttachment, RenderGraphPlanError> {
    let vopt = virt.usage_to_virtual@[usage.0 as int];
    let sopt = res.spec_specification(usage);
    if vopt is None {
        Err(RenderGraphPlanError::UnassignedImage(usage))
    } else if sopt is None {
        Err(RenderGraphPlanError::MissingSpecification(usage))
    } else {
        let spec = sopt->0;
        let size = spec.extents.spec_extent_2d(surface);
        if extents is Some && extents->0 != size {
            Err(RenderGraphPlanError::MismatchedPassExtents(node_id))
        } else {
            let v = vopt->0;
            let i = attachment_index_of(atts, v);
            if i >= 0 {
                Ok(AddedAttachment { attachments: atts, extents: Some(size), index: i, first: false })
            } else {
                Ok(AddedAttachment {
                    attachments: atts.push(RenderGraphPassAttachment { format: spec.format, samples: spec.samples, ..new_attachment_spec(usage, v) }),
                    extents: Some(size),
                    index: atts.len() as int,
                    first: true,
                })
            }
        }
    }
}

/// What is built of a pass so far: its attachments and size, and the attachment bound to each
/// slot.
#[verifier::ext_equal]
pub struct PassBuild {
    pub attachments: Seq<RenderGraphPassAttachment>,
    pub extents: Option<Extent2D>,
    pub color: Seq<Option<usize>>,
    pub resolve: Seq<Option<usize>>,
    pub depth: Option<usize>,
}

pub open spec fn build_state(p: RenderGraphPass, s: RenderGraphSubpass) -> PassBuild {
    PassBuild {
        attachments: p.attachments@,
        extents: p.extents,
        color: s.color_attachments@,
        resolve: s.resolve_attachments@,
        depth: s.depth_attachment,
    }
}

/// A color slot clears (with its clear color) or loads the attachment it is the first to bind,
/// and stores what it writes if something reads it later.
pub open spec fn color_ops(a: RenderGraphPassAttachment, ca: RenderGraphPassColorAttachmentInfo, first: bool, g: RenderGraphBuilder) -> RenderGraphPassAttachment {
    let a1 = if first && ca.clear_color_value is Some {
        RenderGraphPassAttachment { load_op: LOAD_OP_CLEAR, clear_color: Some(AttachmentClearValue::Color(ca.clear_color_value->0)), ..a }
    } else if first && ca.read_image is Some {
        RenderGraphPassAttachment { load_op: LOAD_OP_LOAD, ..a }
    } else {
        a
    };
    RenderGraphPassAttachment { store_op: spec_store_op(g, ca.write_image), stencil_store_op: STORE_OP_DONT_CARE, ..a1 }
}

/// A depth slot clears or loads the depth and stencil aspects it has, for the attachment it is
/// the first to bind, and stores them if what it writes is read later.
pub open spec fn depth_ops(a: RenderGraphPassAttachment, d: RenderGraphPassDepthAttachmentInfo, first: bool, g: RenderGraphBuilder) -> RenderGraphPassAttachment {
    let a1 = if first && d.clear_depth_stencil_value is Some {
        RenderGraphPassAttachment {
            load_op: if d.has_depth { LOAD_OP_CLEAR } else { a.load_op },
            stencil_load_op: if d.has_stencil { LOAD_OP_CLEAR } else { a.stencil_load_op },
            clear_color: Some(AttachmentClearValue::DepthStencil(d.clear_depth_stencil_value->0)),
            ..a
        }
    } else if first && d.read_image is Some {
        RenderGraphPassAttachment {
            load_op: if d.has_depth { LOAD_OP_LOAD } else { a.load_op },
            stencil_load_op: if d.has_stencil { LOAD_OP_LOAD } else { a.stencil_load_op },
            ..a
        }
    } else {
        a
    };
    let op = spec_store_op(g, d.write_image);
    RenderGraphPassAttachment {
        store_op: if d.has_depth { op } else { a1.store_op },
        stencil_store_op: if d.has_stencil { op } else { a1.stencil_store_op },
        ..a1
    }
}

pub open spec fn color_step(
    g: RenderGraphBuilder,
    st: PassBuild,
    res: DetermineImageConstraintsResult,
    virt: AssignVirtualImagesResult,
    surface: Extent2D,
    node_id: RenderGraphNodeId,
    j: int,
) -> Result<PassBuild, RenderGraphPlanError> {
    let slot = g.spec_node(node_id).color_attachments@[j];
    if slot is None {
        Ok(st)
    } else {
        let ca = slot->0;
        let u = slot_usage(ca.read_image, ca.write_image);
        if u is None {
            Err(RenderGraphPlanError::AttachmentWithoutImage(node_id))
        } else {
            match spec_add_attachment(st.attachments, st.extents, res, virt, surface, node_id, u->0) {
                Err(e) => Err(e),
                Ok(added) => Ok(PassBuild {
                    attachments: added.attachments.update(added.index, color_ops(added.attachments[added.index], ca, added.first, g)),
                    extents: added.extents,
                    color: st.color.update(j, Some(added.index as usize)),
                    ..st
                }),
            }
        }
    }
}

/// The load op a color slot gives its attachment. The slot that is the first to bind an
/// attachment (its step adds the attachment) clears it when the slot has a clear color, else
/// loads the earlier contents when the slot reads an image, else does not care; a slot that
/// binds an attachment already there leaves its load op as it was.
pub proof fn lemma_color_slot_load_op(
    g: RenderGraphBuilder,
    st: PassBuild,
    res: DetermineImageConstraintsResult,
    virt: AssignVirtualImagesResult,
    surface: Extent2D,
    node_id: RenderGraphNodeId,
    j: int,
)
    requires
        0 <= j < st.color.len(),
        st.attachments.len() < usize::MAX,
        g.spec_node(node_id).color_attachments@[j] is Some,
        color_step(g, st, res, virt, surface, node_id, j) is Ok,
    ensures
        ({
            let ca = g.spec_node(node_id).color_attachments@[j]->0;
            let st2 = color_step(g, st, res, virt, surface, node_id, j)->Ok_0;
            let k = st2.color[j]->0 as int;
            &&& st2.color[j] is Some
            &&& 0 <= k < st2.attachments.len()
            &&& st2.attachments.len() == st.attachments.len() || st2.attachments.len() == st.attachments.len() + 1
            &&& st2.attachments.len() > st.attachments.len() ==> {
                &&& k == st.attachments.len()
                &&& ca.clear_color_value is Some ==> st2.attachments[k].load_op == LOAD_OP_CLEAR
                &&& ca.clear_color_value is None && ca.read_image is Some ==> st2.attachments[k].load_op == LOAD_OP_LOAD
                &&& ca.clear_color_value is None && ca.read_image is None ==> st2.attachments[k].load_op == LOAD_OP_DONT_CARE
            }
            &&& st2.attachments.len() == st.attachments.len() ==> st2.attachments[k].load_op == st.attachments[k].load_op
            &&& st2.attachments[k].store_op == if ca.write_image is Some
                && g.spec_version_info(ca.write_image->0).read_usages@.len() > 0 {
                STORE_OP_STORE
            } else {
                STORE_OP_DONT_CARE
            }
        }),
{
    let ca = g.spec_node(node_id).color_attachments@[j]->0;
    let u = slot_usage(ca.read_image, ca.write_image);
    let added = spec_add_attachment(st.attachments, st.extents, res, virt, surface, node_id, u->0)->Ok_0;
    if !added.first {
        let v = virt.usage_to_virtual@[(u->0).0 as int]->0;
        assert(0 <= attachment_index_of(st.attachments, v) < st.attachments.len());
    }
}

pub open spec fn color_fold(
    g: RenderGraphBuilder,
    st: PassBuild,
    res: DetermineImageConstraintsResult,
    virt: AssignVirtualImagesResult,
    surface: Extent2D,
    node_id: RenderGraphNodeId,
    n: nat,
) -> Result<PassBuild, RenderGraphPlanError>
    decreases n,
{
    if n == 0 {
        Ok(st)
    } else {
        match color_fold(g, st, res, virt, surface, node_id, (n - 1) as nat) {
            Err(e) => Err(e),
            Ok(prev) => color_step(g, prev, res, virt, surface, node_id, n - 1),
        }
    }
}

pub open spec fn resolve_step(
    g: RenderGraphBuilder,
    st: PassBuild,
    res: DetermineImageConstraintsResult,
    virt: AssignVirtualImagesResult,
    surface: Extent2D,
    node_id: RenderGraphNodeId,
    j: int,
) -> Result<PassBuild, RenderGraphPlanError> {
    let slot = g.spec_node(node_id).resolve_attachments@[j];
    if slot is None {
        Ok(st)
    } else {
        let w = (slot->0).write_image;
        match spec_add_attachment(st.attachments, st.extents, res, virt, surface, node_id, w) {
            Err(e) => Err(e),
            Ok(added) => if !added.first {
                Err(RenderGraphPlanError::ConflictingImageAssignment(w))
            } else {
                Ok(PassBuild {
                    attachments: added.attachments.update(added.index, RenderGraphPassAttachment {
                        store_op: spec_store_op(g, Some(w)),
                        stencil_store_op: STORE_OP_DONT_CARE,
                        ..added.attachments[added.index]
                    }),
                    extents: added.extents,
                    resolve: st.resolve.update(j, Some(added.index as usize)),
                    ..st
                })
            },
        }
    }
}

/// A resolve slot always gets an attachment of its own: binding it to an attachment already
/// in the pass is refused, and the new attachment stores what it receives when something reads
/// it later (its load ops are not cared for).
pub proof fn lemma_resolve_slot_ops(
    g: RenderGraphBuilder,
    st: PassBuild,
    res: DetermineImageConstraintsResult,
    virt: AssignVirtualImagesResult,
    surface: Extent2D,
    node_id: RenderGraphNodeId,
    j: int,
)
    requires
        0 <= j < st.resolve.len(),
        st.attachments.len() < usize::MAX,
        g.spec_node(node_id).resolve_attachments@[j] is Some,
        spec_add_attachment(
            st.attachments, st.extents, res, virt, surface, node_id, (g.spec_node(node_id).resolve_attachments@[j]->0).write_image,
        ) is Ok,
    ensures
        ({
            let w = (g.spec_node(node_id).resolve_attachments@[j]->0).write_image;
            let r = resolve_step(g, st, res, virt, surface, node_id, j);
            let v = virt.usage_to_virtual@[w.0 as int]->0;
            &&& r is Err <==> attachment_index_of(st.attachments, v) >= 0
            &&& r is Err ==> r->Err_0 == RenderGraphPlanError::ConflictingImageAssignment(w)
            &&& r is Ok ==> {
                let st2 = r->Ok_0;
                let k = st.attachments.len() as int;
                &&& st2.attachments.len() == st.attachments.len() + 1
                &&& st2.resolve[j] == Some(k as usize)
                &&& st2.attachments[k].virtual_image == v
                &&& st2.attachments[k].load_op == LOAD_OP_DONT_CARE
                &&& st2.attachments[k].stencil_load_op == LOAD_OP_DONT_CARE
                &&& st2.attachments[k].store_op == if g.spec_version_info(w).read_usages@.len() > 0 {
                    STORE_OP_STORE
                } else {
                    STORE_OP_DONT_CARE
                }
            }
        }),
{
}

pub open spec fn resolve_fold(
    g: RenderGraphBuilder,
    st: PassBuild,
    res: DetermineImageConstraintsResult,
    virt: AssignVirtualImagesResult,
    surface: Extent2D,
    node_id: RenderGraphNodeId,
    n: nat,
) -> Result<PassBuild, RenderGraphPlanError>
    decreases n,
{
    if n == 0 {
        Ok(st)
    } else {
        match resolve_fold(g, st, res, virt, surface, node_id, (n - 1) as nat) {
            Err(e) => Err(e),
            Ok(prev) => resolve_step(g, prev, res, virt, surface, node_id, n - 1),
        }
    }
}

pub open spec fn depth_step(
    g: RenderGraphBuilder,
    st: PassBuild,
    res: DetermineImageConstraintsResult,
    virt: AssignVirtualImagesResult,
    surface: Extent2D,
    node_id: RenderGraphNodeId,
) -> Result<PassBuild, RenderGraphPlanError> {
    let slot = g.spec_node(node_id).depth_attachment;
    if slot is None {
        Ok(st)
    } else {
        let d = slot->0;
        let u = slot_usage(d.read_image, d.write_image);
        if u is None {
            Err(RenderGraphPlanError::AttachmentWithoutImage(node_id))
        } else {
            match spec_add_attachment(st.attachments, st.extents, res, virt, surface, node_id, u->0) {
                Err(e) => Err(e),
                Ok(added) => Ok(PassBuild {
                    attachments: added.attachments.update(added.index, depth_ops(added.attachments[added.index], d, added.first, g)),
                    extents: added.extents,
                    depth: Some(added.index as usize),
                    ..st
                }),
            }
        }
    }
}

/// The operations a depth slot gives its attachment. The slot that is the first to bind an
/// attachment clears each aspect the slot has when the slot has a clear value, else loads those
/// aspects when the slot reads an image; aspects it does not clear or load are not cared for.
/// A slot that binds an attachment already there leaves its load ops as they were. Each aspect
/// the slot has is stored when what the slot writes is read later.
pub proof fn lemma_depth_slot_ops(
    g: RenderGraphBuilder,
    st: PassBuild,
    res: DetermineImageConstraintsResult,
    virt: AssignVirtualImagesResult,
    surface: Extent2D,
    node_id: RenderGraphNodeId,
)
    requires
        st.attachments.len() < usize::MAX,
        g.spec_node(node_id).depth_attachment is Some,
        depth_step(g, st, res, virt, surface, node_id) is Ok,
    ensures
        ({
            let d = g.spec_node(node_id).depth_attachment->0;
            let st2 = depth_step(g, st, res, virt, surface, node_id)->Ok_0;
            let k = st2.depth->0 as int;
            let a = st2.attachments[k];
            let stored = if d.write_image is Some && g.spec_version_info(d.write_image->0).read_usages@.len() > 0 {
                STORE_OP_STORE
            } else {
                STORE_OP_DONT_CARE
            };
            &&& st2.depth is Some
            &&& 0 <= k < st2.attachments.len()
            &&& st2.attachments.len() == st.attachments.len() || st2.attachments.len() == st.attachments.len() + 1
            &&& st2.attachments.len() > st.attachments.len() ==> {
                &&& k == st.attachments.len()
                &&& a.load_op == if d.has_depth && d.clear_depth_stencil_value is Some {
                    LOAD_OP_CLEAR
                } else if d.has_depth && d.read_image is Some {
                    LOAD_OP_LOAD
                } else {
                    LOAD_OP_DONT_CARE
                }
                &&& a.stencil_load_op == if d.has_stencil && d.clear_depth_stencil_value is Some {
                    LOAD_OP_CLEAR
                } else if d.has_stencil && d.read_image is Some {
                    LOAD_OP_LOAD
                } else {
                    LOAD_OP_DONT_CARE
                }
            }
            &&& st2.attachments.len() == st.attachments.len() ==> a.load_op == st.attachments[k].load_op
                && a.stencil_load_op == st.attachments[k].stencil_load_op
            &&& d.has_depth ==> a.store_op == stored
            &&& d.has_stencil ==> a.stencil_store_op == stored
        }),
{
    let d = g.spec_node(node_id).depth_attachment->0;
    let u = slot_usage(d.read_image, d.write_image);
    let added = spec_add_attachment(st.attachments, st.extents, res, virt, surface, node_id, u->0)->Ok_0;
    if !added.first {
        let v = virt.usage_to_virtual@[(u->0).0 as int]->0;
        assert(0 <= attachment_index_of(st.attachments, v) < st.attachments.len());
    }
}

/// The renderpass of one node: its color slots, then resolve slots, then the depth slot, each
/// bound to an attachment. A node without color or depth slots gets none (and must have no
/// resolve slots).
pub open spec fn spec_build_pass(
    g: RenderGraphBuilder,
    node_id: RenderGraphNodeId,
    res: DetermineImageConstraintsResult,
    virt: AssignVirtualImagesResult,
    surface: Extent2D,
) -> Result<Option<PassBuild>, RenderGraphPlanError> {
    let node = g.spec_node(node_id);
    if !has_attachments(node) {
        if node.resolve_attachments@.len() > 0 {
            Err(RenderGraphPlanError::ResolveWithoutAttachments(node_id))
        } else {
            Ok(None)
        }
    } else {
        let st0 = PassBuild {
            attachments: Seq::empty(),
            extents: None,
            color: Seq::new(node.color_attachments@.len(), |i: int| None::<usize>),
            resolve: Seq::new(node.resolve_attachments@.len(), |i: int| None::<usize>),
            depth: None,
        };
        match color_fold(g, st0, res, virt, surface, node_id, node.color_attachments@.len()) {
            Err(e) => Err(e),
            Ok(s1) => match resolve_fold(g, s1, res, virt, surface, node_id, node.resolve_attachments@.len()) {
                Err(e) => Err(e),
                Ok(s2) => match depth_step(g, s2, res, virt, surface, node_id) {
                    Err(e) => Err(e),
                    Ok(s3) => Ok(Some(s3)),
                },
            },
        }
    }
}

proof fn lemma_color_fold_err_stays(
    g: RenderGraphBuilder,
    st: PassBuild,
    res: DetermineImageConstraintsResult,
    virt: AssignVirtualImagesResult,
    surface: Extent2D,
    node_id: RenderGraphNodeId,
    i: nat,
    n: nat,
)
    requires
        i <= n,
        color_fold(g, st, res, virt, surface, node_id, i) is Err,
    ensures
        color_fold(g, st, res, virt, surface, node_id, n) == color_fold(g, st, res, virt, surface, node_id, i),
    decreases n - i,
{
    if i < n {
        lemma_color_fold_err_stays(g, st, res, virt, surface, node_id, i, (n - 1) as nat);
    }
}

proof fn lemma_resolve_fold_err_stays(
    g: RenderGraphBuilder,
    st: PassBuild,
    res: DetermineImageConstraintsResult,
    virt: AssignVirtualImagesResult,
    surface: Extent2D,
    node_id: RenderGraphNodeId,
    i: nat,
    n: nat,
)
    requires
        i <= n,
        resolve_fold(g, st, res, virt, surface, node_id, i) is Err,
    ensures
        resolve_fold(g, st, res, virt, surface, node_id, n) == resolve_fold(g, st, res, virt, surface, node_id, i),
    decreases n - i,
{
    if i < n {
        lemma_resolve_fold_err_stays(g, st, res, virt, surface, node_id, i, (n - 1) as nat);
    }
}

fn none_slots(n: usize) -> (r: Vec<Option<usize>>)
    ensures
        r@.len() == n,
        forall|i: int| 0 <= i < n ==> r@[i] is None,
{
    let mut v: Vec<Option<usize>> = Vec::new();
    for i in 0..n
        invariant
            v@.len() == i,
            forall|j: int| 0 <= j < i ==> v@[j] is None,
    {
        v.push(None);
    }
    v
}

/// Builds the renderpass of one node: one subpass, and an attachment for each distinct virtual
/// image its color, resolve and depth slots use. Returns `None` for a node without attachment
/// slots.
#[verifier::rlimit(40)]
pub fn build_pass_for_node(
    graph: &RenderGraphBuilder,
    node_id: RenderGraphNodeId,
    image_constraints: &DetermineImageConstraintsResult,
    virtual_images: &AssignVirtualImagesResult,
    surface: Extent2D,
) -> (r: Result<Option<RenderGraphPass>, RenderGraphPlanError>)
    requires
        graph.wf(),
        node_id.0 < graph.nodes@.len(),
        virtual_images.usage_to_virtual@.len() == graph.image_usages@.len(),
    ensures
        r is Ok ==> (r->Ok_0 is Some <==> has_attachments(graph.spec_node(node_id))),
        r is Ok && r->Ok_0 is Some ==> pass_wf(r->Ok_0->0, node_id, *image_constraints, *virtual_images, surface)
            && subpass_binds_node(r->Ok_0->0, graph.spec_node(node_id), *virtual_images),
        match spec_build_pass(*graph, node_id, *image_constraints, *virtual_images, surface) {
            Err(e) => r == Err::<Option<RenderGraphPass>, RenderGraphPlanError>(e),
            Ok(None) => r is Ok && r->Ok_0 is None,
            Ok(Some(st)) => r is Ok && r->Ok_0 is Some && build_state(r->Ok_0->0, r->Ok_0->0.subpasses@[0]) == st,
        },
{
    let node = graph.node(node_id);
    proof {
        assert(node.usages_below(graph.image_usages@.len()));
    }
    if node.color_attachments.len() == 0 && node.depth_attachment.is_none() {
        if node.resolve_attachments.len() > 0 {
            return Err(RenderGraphPlanError::ResolveWithoutAttachments(node_id));
        }
        return Ok(None);
    }
    let ncolor = node.color_attachments.len();
    let nresolve = node.resolve_attachments.len();
    let mut subpass = RenderGraphSubpass {
        node: node_id,
        color_attachments: none_slots(ncolor),
        resolve_attachments: none_slots(nresolve),
        depth_attachment: None,
    };
    let mut pass = RenderGraphPass { attachments: Vec::new(), subpasses: Vec::new(), extents: None, pre_pass_barrier: None };
    let ghost res = *image_constraints;
    let ghost virt = *virtual_images;
    let ghost st0 = PassBuild {
        attachments: Seq::empty(),
        extents: None,
        color: Seq::new(ncolor as nat, |i: int| None::<usize>),
        resolve: Seq::new(nresolve as nat, |i: int| None::<usize>),
        depth: None,
    };
    proof {
        assert(build_state(pass, subpass) =~= st0);
        assert(subpass.color_attachments@ =~= st0.color);
        assert(subpass.resolve_attachments@ =~= st0.resolve);
    }

    for ci in 0..ncolor
        invariant
            color_fold(*graph, st0, res, virt, surface, node_id, ci as nat) == Ok::<PassBuild, RenderGraphPlanError>(build_state(pass, subpass)),
            has_attachments(graph.spec_node(node_id)),
            st0 == (PassBuild {
                attachments: Seq::empty(),
                extents: None,
                color: Seq::new(graph.spec_node(node_id).color_attachments@.len(), |i: int| None::<usize>),
                resolve: Seq::new(graph.spec_node(node_id).resolve_attachments@.len(), |i: int| None::<usize>),
                depth: None,
            }),
            graph.wf(),
            node == graph.spec_node(node_id),
            node.usages_below(graph.image_usages@.len()),
            ncolor == node.color_attachments@.len(),
            nresolve == node.resolve_attachments@.len(),
            virtual_images.usage_to_virtual@.len() == graph.image_usages@.len(),
            res == *image_constraints,
            virt == *virtual_images,
            attachments_wf(pass.attachments@, res, virt, pass.extents, surface),
            pass.attachments@.len() > 0 ==> pass.extents is Some,
            pass.subpasses@.len() == 0,
            pass.pre_pass_barrier is None,
            subpass.node == node_id,
            subpass_indices_below(subpass, pass.attachments@.len()),
            subpass.color_attachments@.len() == ncolor,
            subpass.resolve_attachments@.len() == nresolve,
            subpass.depth_attachment is None,
            forall|j: int| ci <= j < ncolor ==> (#[trigger] subpass.color_attachments@[j]) is None,
            forall|j: int| 0 <= j < nresolve ==> (#[trigger] subpass.resolve_attachments@[j]) is None,
            forall|j: int| 0 <= j < ci ==> {
                let slot = #[trigger] node.color_attachments@[j];
                &&& (slot is None ==> subpass.color_attachments@[j] is None)
                &&& (slot is Some ==> {
                    let u = slot_usage((slot->0).read_image, (slot->0).write_image);
                    &&& subpass.color_attachments@[j] is Some
                    &&& u is Some
                    &&& pass.attachments@[subpass.color_attachments@[j]->0 as int].virtual_image == virt.usage_to_virtual@[(u->0).0 as int]->0
                })
            },
    {
        if let Some(color_attachment) = &node.color_attachments[ci] {
            let usage = match color_attachment.read_image {
                Some(u) => u,
                None => match color_attachment.write_image {
                    Some(u) => u,
                    None => {
                        proof {
                            lemma_color_fold_err_stays(*graph, st0, res, virt, surface, node_id, (ci + 1) as nat, ncolor as nat);
                        }
                        return Err(RenderGraphPlanError::AttachmentWithoutImage(node_id));
                    },
                },
            };
            let ghost before = pass.attachments@;
            let ghost prev_state = build_state(pass, subpass);
            let (i, first, spec) = match add_attachment(image_constraints, virtual_images, surface, node_id, &mut pass, usage) {
                Ok(t) => t,
                Err(e) => {
                    proof {
                        lemma_color_fold_err_stays(*graph, st0, res, virt, surface, node_id, (ci + 1) as nat, ncolor as nat);
                    }
                    return Err(e);
                },
            };
            let ghost after_add = pass.attachments@;
            subpass.color_attachments.set(ci, Some(i));
            let mut a = pass.attachments[i];
            if first {
                match color_attachment.clear_color_value {
                    Some(c) => {
                        a.load_op = LOAD_OP_CLEAR;
                        a.clear_color = Some(AttachmentClearValue::Color(c));
                    },
                    None => {
                        if color_attachment.read_image.is_some() {
                            a.load_op = LOAD_OP_LOAD;
                        }
                    },
                }
            }
            a.store_op = store_op(graph, color_attachment.write_image);
            a.stencil_store_op = STORE_OP_DONT_CARE;
            set_attachment_ops(&mut pass, i, a, Ghost(res), Ghost(virt), Ghost(surface));
            proof {
                let added = spec_add_attachment(prev_state.attachments, prev_state.extents, res, virt, surface, node_id, usage)->Ok_0;
                assert(a == color_ops(after_add[i as int], *color_attachment, first, *graph));
                assert(build_state(pass, subpass) =~= (PassBuild {
                    attachments: added.attachments.update(added.index, color_ops(added.attachments[added.index], *color_attachment, added.first, *graph)),
                    extents: added.extents,
                    color: prev_state.color.update(ci as int, Some(added.index as usize)),
                    ..prev_state
                }));
            }
            proof {
                assert forall|j: int| 0 <= j < ci + 1 implies {
                    let slot = #[trigger] node.color_attachments@[j];
                    &&& (slot is None ==> subpass.color_attachments@[j] is None)
                    &&& (slot is Some ==> {
                        let u = slot_usage((slot->0).read_image, (slot->0).write_image);
                        &&& subpass.color_attachments@[j] is Some
                        &&& u is Some
                        &&& pass.attachments@[subpass.color_attachments@[j]->0 as int].virtual_image == virt.usage_to_virtual@[(u->0).0 as int]->0
                    })
                } by {
                    if j < ci && node.color_attachments@[j] is Some {
                        let k = subpass.color_attachments@[j]->0;
                        assert(pass.attachments@[k as int].virtual_image == after_add[k as int].virtual_image);
                        assert(after_add[k as int] == before[k as int]);
                    }
                }
            }
        }
    }

    let ghost s1 = build_state(pass, subpass);
    proof {
        assert(resolve_fold(*graph, s1, res, virt, surface, node_id, 0) == Ok::<PassBuild, RenderGraphPlanError>(build_state(pass, subpass)));
    }
    for ri in 0..nresolve
        invariant
            resolve_fold(*graph, s1, res, virt, surface, node_id, ri as nat) == Ok::<PassBuild, RenderGraphPlanError>(build_state(pass, subpass)),
            color_fold(*graph, st0, res, virt, surface, node_id, ncolor as nat) == Ok::<PassBuild, RenderGraphPlanError>(s1),
            has_attachments(graph.spec_node(node_id)),
            st0 == (PassBuild {
                attachments: Seq::empty(),
                extents: None,
                color: Seq::new(graph.spec_node(node_id).color_attachments@.len(), |i: int| None::<usize>),
                resolve: Seq::new(graph.spec_node(node_id).resolve_attachments@.len(), |i: int| None::<usize>),
                depth: None,
            }),
            graph.wf(),
            node == graph.spec_node(node_id),
            node.usages_below(graph.image_usages@.len()),
            ncolor == node.color_attachments@.len(),
            nresolve == node.resolve_attachments@.len(),
            virtual_images.usage_to_virtual@.len() == graph.image_usages@.len(),
            res == *image_constraints,
            virt == *virtual_images,
            attachments_wf(pass.attachments@, res, virt, pass.extents, surface),
            pass.attachments@.len() > 0 ==> pass.extents is Some,
            pass.subpasses@.len() == 0,
            pass.pre_pass_barrier is None,
            subpass.node == node_id,
            subpass_indices_below(subpass, pass.attachments@.len()),
            subpass.color_attachments@.len() == ncolor,
            subpass.resolve_attachments@.len() == nresolve,
            subpass.depth_attachment is None,
            forall|j: int| ri <= j < nresolve ==> (#[trigger] subpass.resolve_attachments@[j]) is None,
            forall|j: int| 0 <= j < ncolor ==> {
                let slot = #[trigger] node.color_attachments@[j];
                &&& (slot is None ==> subpass.color_attachments@[j] is None)
                &&& (slot is Some ==> {
                    let u = slot_usage((slot->0).read_image, (slot->0).write_image);
                    &&& subpass.color_attachments@[j] is Some
                    &&& u is Some
                    &&& pass.attachments@[subpass.color_attachments@[j]->0 as int].virtual_image == virt.usage_to_virtual@[(u->0).0 as int]->0
                })
            },
            forall|j: int| 0 <= j < ri ==> {
                let slot = #[trigger] node.resolve_attachments@[j];
                &&& (slot is None ==> subpass.resolve_attachments@[j] is None)
                &&& (slot is Some ==> {
                    &&& subpass.resolve_attachments@[j] is Some
                    &&& pass.attachments@[subpass.resolve_attachments@[j]->0 as int].virtual_image == virt.usage_to_virtual@[(slot->0).write_image.0 as int]->0
                })
            },
    {
        if let Some(resolve_attachment) = &node.resolve_attachments[ri] {
            let write_image = resolve_attachment.write_image;
            let ghost before = pass.attachments@;
            let ghost prev_state = build_state(pass, subpass);
            let (i, first, spec) = match add_attachment(image_constraints, virtual_images, surface, node_id, &mut pass, write_image) {
                Ok(t) => t,
                Err(e) => {
                    proof {
                        lemma_resolve_fold_err_stays(*graph, s1, res, virt, surface, node_id, (ri + 1) as nat, nresolve as nat);
                    }
                    return Err(e);
                },
            };
            if !first {
                proof {
                    lemma_resolve_fold_err_stays(*graph, s1, res, virt, surface, node_id, (ri + 1) as nat, nresolve as nat);
                }
                return Err(RenderGraphPlanError::ConflictingImageAssignment(write_image));
            }
            let ghost after_add = pass.attachments@;
            subpass.resolve_attachments.set(ri, Some(i));
            let mut a = pass.attachments[i];
            a.store_op = store_op(graph, Some(write_image));
            a.stencil_store_op = STORE_OP_DONT_CARE;
            set_attachment_ops(&mut pass, i, a, Ghost(res), Ghost(virt), Ghost(surface));
            proof {
                let added = spec_add_attachment(prev_state.attachments, prev_state.extents, res, virt, surface, node_id, write_image)->Ok_0;
                assert(build_state(pass, subpass) =~= (PassBuild {
                    attachments: added.attachments.update(added.index, RenderGraphPassAttachment {
                        store_op: spec_store_op(*graph, Some(write_image)),
                        stencil_store_op: STORE_OP_DONT_CARE,
                        ..added.attachments[added.index]
                    }),
                    extents: added.extents,
                    resolve: prev_state.resolve.update(ri as int, Some(added.index as usize)),
                    ..prev_state
                }));
            }
            proof {
                assert forall|j: int| 0 <= j < ncolor implies {
                    let slot = #[trigger] node.color_attachments@[j];
                    &&& (slot is None ==> subpass.color_attachments@[j] is None)
                    &&& (slot is Some ==> {
                        let u = slot_usage((slot->0).read_image, (slot->0).write_image);
                        &&& subpass.color_attachments@[j] is Some
                        &&& u is Some
                        &&& pass.attachments@[subpass.color_attachments@[j]->0 as int].virtual_image == virt.usage_to_virtual@[(u->0).0 as int]->0
                    })
                } by {
                    if node.color_attachments@[j] is Some {
                        let k = subpass.color_attachments@[j]->0;
                        assert(pass.attachments@[k as int] == before[k as int]);
                    }
                }
                assert forall|j: int| 0 <= j < ri + 1 implies {
                    let slot = #[trigger] node.resolve_attachments@[j];
                    &&& (slot is None ==> subpass.resolve_attachments@[j] is None)
                    &&& (slot is Some ==> {
                        &&& subpass.resolve_attachments@[j] is Some
                        &&& pass.attachments@[subpass.resolve_attachments@[j]->0 as int].virtual_image == virt.usage_to_virtual@[(slot->0).write_image.0 as int]->0
                    })
                } by {
                    if j < ri && node.resolve_attachments@[j] is Some {
                        let k = subpass.resolve_attachments@[j]->0;
                        assert(pass.attachments@[k as int] == before[k as int]);
                    }
                }
            }
        }
    }

    let ghost s2 = build_state(pass, subpass);
    if let Some(depth_attachment) = &node.depth_attachment {
        let usage = match depth_attachment.read_image {
            Some(u) => u,
            None => match depth_attachment.write_image {
                Some(u) => u,
                None => {
                    return Err(RenderGraphPlanError::AttachmentWithoutImage(node_id));
                },
            },
        };
        let ghost before = pass.attachments@;
        let (i, first, spec) = match add_attachment(image_constraints, virtual_images, surface, node_id, &mut pass, usage) {
            Ok(t) => t,
            Err(e) => {
                return Err(e);
            },
        };
        let ghost after_add = pass.attachments@;
        subpass.depth_attachment = Some(i);
        let mut a = pass.attachments[i];
        if first {
            match depth_attachment.clear_depth_stencil_value {
                Some(c) => {
                    if depth_attachment.has_depth {
                        a.load_op = LOAD_OP_CLEAR;
                    }
                    if depth_attachment.has_stencil {
                        a.stencil_load_op = LOAD_OP_CLEAR;
                    }
                    a.clear_color = Some(AttachmentClearValue::DepthStencil(c));
                },
                None => {
                    if depth_attachment.read_image.is_some() {
                        if depth_attachment.has_depth {
                            a.load_op = LOAD_OP_LOAD;
                        }
                        if depth_attachment.has_stencil {
                            a.stencil_load_op = LOAD_OP_LOAD;
                        }
                    }
                },
            }
        }
        let op = store_op(graph, depth_attachment.write_image);
        if depth_attachment.has_depth {
            a.store_op = op;
        }
        if depth_attachment.has_stencil {
            a.stencil_store_op = op;
        }
        set_attachment_ops(&mut pass, i, a, Ghost(res), Ghost(virt), Ghost(surface));
        proof {
            let added = spec_add_attachment(s2.attachments, s2.extents, res, virt, surface, node_id, usage)->Ok_0;
            assert(a == depth_ops(after_add[i as int], *depth_attachment, first, *graph));
            assert(build_state(pass, subpass) =~= (PassBuild {
                attachments: added.attachments.update(added.index, depth_ops(added.attachments[added.index], *depth_attachment, added.first, *graph)),
                extents: added.extents,
                depth: Some(added.index as usize),
                ..s2
            }));
        }
        proof {
            assert forall|j: int| 0 <= j < ncolor implies {
                let slot = #[trigger] node.color_attachments@[j];
                &&& (slot is None ==> subpass.color_attachments@[j] is None)
                &&& (slot is Some ==> {
                    let u = slot_usage((slot->0).read_image, (slot->0).write_image);
                    &&& subpass.color_attachments@[j] is Some
                    &&& u is Some
                    &&& pass.attachments@[subpass.color_attachments@[j]->0 as int].virtual_image == virt.usage_to_virtual@[(u->0).0 as int]->0
                })
            } by {
                if node.color_attachments@[j] is Some {
                    let k = subpass.color_attachments@[j]->0;
                    assert(after_add[k as int] == before[k as int]);
                }
            }
            assert forall|j: int| 0 <= j < nresolve implies {
                let slot = #[trigger] node.resolve_attachments@[j];
                &&& (slot is None ==> subpass.resolve_attachments@[j] is None)
                &&& (slot is Some ==> {
                    &&& subpass.resolve_attachments@[j] is Some
                    &&& pass.attachments@[subpass.resolve_attachments@[j]->0 as int].virtual_image == virt.usage_to_virtual@[(slot->0).write_image.0 as int]->0
                })
            } by {
                if node.resolve_attachments@[j] is Some {
                    let k = subpass.resolve_attachments@[j]->0;
                    assert(after_add[k as int] == before[k as int]);
                }
            }
        }
    }
    pass.subpasses.push(subpass);
    Ok(Some(pass))
}

/// The renderpasses built for the nodes of `order` that have attachment slots, in order: each
/// is well formed, binds its node, and is what `spec_build_pass` gives for it.
pub open spec fn built_passes(
    graph: RenderGraphBuilder,
    order: Seq<RenderGraphNodeId>,
    image_constraints: DetermineImageConstraintsResult,
    virtual_images: AssignVirtualImagesResult,
    surface: Extent2D,
    passes: Seq<RenderGraphPass>,
) -> bool {
    let nodes = pass_nodes(graph, order, order.len());
    &&& passes.len() == nodes.len()
    &&& forall|k: int| 0 <= k < passes.len() ==> pass_wf(#[trigger] passes[k], nodes[k], image_constraints, virtual_images, surface)
        && subpass_binds_node(passes[k], graph.spec_node(nodes[k]), virtual_images)
    &&& forall|k: int| 0 <= k < passes.len() ==> Ok::<Option<PassBuild>, RenderGraphPlanError>(Some(build_state(#[trigger] passes[k], passes[k].subpasses@[0])))
        == spec_build_pass(graph, nodes[k], image_constraints, virtual_images, surface)
}

/// Groups the nodes into renderpasses (each node on its own, as no two nodes can be merged
/// yet) and builds each renderpass. Nodes without attachment slots get no renderpass. Every
/// node's pass must be one that can be built: its attachments have images and specifications,
/// agree on one size, and a resolve goes with a color or depth attachment.
pub fn build_physical_passes(
    graph: &RenderGraphBuilder,
    node_execution_order: &Vec<RenderGraphNodeId>,
    image_constraints: &DetermineImageConstraintsResult,
    virtual_images: &AssignVirtualImagesResult,
    surface: Extent2D,
) -> (r: Vec<RenderGraphPass>)
    requires
        graph.wf(),
        forall|k: int| 0 <= k < node_execution_order@.len() ==> (#[trigger] node_execution_order@[k]).0 < graph.nodes@.len(),
        virtual_images.usage_to_virtual@.len() == graph.image_usages@.len(),
        forall|k: int| 0 <= k < node_execution_order@.len()
            ==> spec_build_pass(*graph, #[trigger] node_execution_order@[k], *image_constraints, *virtual_images, surface) is Ok,
    ensures
        built_passes(*graph, node_execution_order@, *image_constraints, *virtual_images, surface, r@),
{
    match try_build_physical_passes(graph, node_execution_order, image_constraints, virtual_images, surface) {
        Ok(passes) => passes,
        Err(_) => {
            proof {
                assert(false);
            }
            Vec::new()
        },
    }
}

/// The renderpasses as `build_physical_passes` builds them, or the error of the first node, in
/// execution order, whose pass cannot be built.
pub fn try_build_physical_passes(
    graph: &RenderGraphBuilder,
    node_execution_order: &Vec<RenderGraphNodeId>,
    image_constraints: &DetermineImageConstraintsResult,
    virtual_images: &AssignVirtualImagesResult,
    surface: Extent2D,
) -> (r: Result<Vec<RenderGraphPass>, RenderGraphPlanError>)
    requires
        graph.wf(),
        forall|k: int| 0 <= k < node_execution_order@.len() ==> (#[trigger] node_execution_order@[k]).0 < graph.nodes@.len(),
        virtual_images.usage_to_virtual@.len() == graph.image_usages@.len(),
    ensures
        r is Ok ==> built_passes(*graph, node_execution_order@, *image_constraints, *virtual_images, surface, r->Ok_0@),
        r is Ok <==> forall|k: int| 0 <= k < node_execution_order@.len() ==> spec_build_pass(*graph, #[trigger] node_execution_order@[k], *image_constraints, *virtual_images, surface) is Ok,
        r is Err ==> exists|k: int| 0 <= k < node_execution_order@.len()
            && (forall|j: int| 0 <= j < k ==> spec_build_pass(*graph, #[trigger] node_execution_order@[j], *image_constraints, *virtual_images, surface) is Ok)
            && spec_build_pass(*graph, node_execution_order@[k], *image_constraints, *virtual_images, surface) == Err::<Option<PassBuild>, RenderGraphPlanError>(r->Err_0),
{
    // Group the nodes into sets that share a renderpass
    let mut pass_node_sets: Vec<Vec<RenderGraphNodeId>> = Vec::new();
    let mut subpass_nodes: Vec<RenderGraphNodeId> = Vec::new();
    let n = node_execution_order.len();
    for oi in 0..n
        invariant
            n == node_execution_order@.len(),
            graph.wf(),
            forall|k: int| 0 <= k < node_execution_order@.len() ==> (#[trigger] node_execution_order@[k]).0 < graph.nodes@.len(),
            oi == 0 ==> subpass_nodes@.len() == 0 && pass_node_sets@.len() == 0,
            oi > 0 ==> subpass_nodes@ == seq![node_execution_order@[oi - 1]] && pass_node_sets@.len() == oi - 1,
            forall|k: int| 0 <= k < pass_node_sets@.len() ==> (#[trigger] pass_node_sets@[k])@ == seq![node_execution_order@[k]],
    {
        let node_id = node_execution_order[oi];
        let mut add_to_current = true;
        let nsub = subpass_nodes.len();
        for si in 0..nsub
            invariant
                nsub == subpass_nodes@.len(),
                nsub == 0 ==> add_to_current,
                oi == 0 ==> subpass_nodes@.len() == 0 && pass_node_sets@.len() == 0,
                oi > 0 ==> subpass_nodes@ == seq![node_execution_order@[oi - 1]] && pass_node_sets@.len() == oi - 1,
                forall|k: int| 0 <= k < pass_node_sets@.len() ==> (#[trigger] pass_node_sets@[k])@ == seq![node_execution_order@[k]],
                forall|k: int| 0 <= k < subpass_nodes@.len() ==> (#[trigger] subpass_nodes@[k]).0 < graph.nodes@.len(),
                node_id.0 < graph.nodes@.len(),
                si > 0 ==> !add_to_current,
        {
            if !can_merge_nodes(graph, subpass_nodes[si], node_id, image_constraints, virtual_images) {
                add_to_current = false;
            }
        }
        if add_to_current {
            subpass_nodes.push(node_id);
        } else {
            pass_node_sets.push(subpass_nodes);
            subpass_nodes = Vec::new();
            subpass_nodes.push(node_id);
        }
        proof {
            assert(subpass_nodes@ =~= seq![node_execution_order@[oi as int]]);
        }
    }
    if subpass_nodes.len() > 0 {
        pass_node_sets.push(subpass_nodes);
    }
    proof {
        assert(pass_node_sets@.len() == n);
        assert forall|k: int| 0 <= k < pass_node_sets@.len() implies (#[trigger] pass_node_sets@[k])@ == seq![node_execution_order@[k]] by {
        }
    }

    // Build a renderpass for each set
    let mut passes: Vec<RenderGraphPass> = Vec::new();
    let nsets = pass_node_sets.len();
    for si in 0..nsets
        invariant
            graph.wf(),
            nsets == pass_node_sets@.len(),
            nsets == node_execution_order@.len(),
            forall|k: int| 0 <= k < node_execution_order@.len() ==> (#[trigger] node_execution_order@[k]).0 < graph.nodes@.len(),
            virtual_images.usage_to_virtual@.len() == graph.image_usages@.len(),
            forall|k: int| 0 <= k < pass_node_sets@.len() ==> (#[trigger] pass_node_sets@[k])@ == seq![node_execution_order@[k]],
            passes@.len() == pass_nodes(*graph, node_execution_order@, si as nat).len(),
            forall|k: int| 0 <= k < passes@.len() ==> pass_wf(#[trigger] passes@[k], pass_nodes(*graph, node_execution_order@, si as nat)[k], *image_constraints, *virtual_images, surface)
                && subpass_binds_node(passes@[k], graph.spec_node(pass_nodes(*graph, node_execution_order@, si as nat)[k]), *virtual_images),
            forall|k: int| 0 <= k < passes@.len() ==> Ok::<Option<PassBuild>, RenderGraphPlanError>(Some(build_state(#[trigger] passes@[k], passes@[k].subpasses@[0])))
                == spec_build_pass(*graph, pass_nodes(*graph, node_execution_order@, si as nat)[k], *image_constraints, *virtual_images, surface),
            forall|j: int| 0 <= j < si ==> spec_build_pass(*graph, #[trigger] node_execution_order@[j], *image_constraints, *virtual_images, surface) is Ok,
    {
        let node_id = pass_node_sets[si][0];
        proof {
            assert(pass_node_sets@[si as int]@[0] == node_execution_order@[si as int]);
        }
        let ghost prev = pass_nodes(*graph, node_execution_order@, si as nat);
        let built = match build_pass_for_node(graph, node_id, image_constraints, virtual_images, surface) {
            Ok(b) => b,
            Err(e) => {
                return Err(e);
            },
        };
        match built {
            Some(pass) => {
                passes.push(pass);
                proof {
                    let cur = pass_nodes(*graph, node_execution_order@, (si + 1) as nat);
                    assert(cur == prev.push(node_id));
                    assert forall|k: int| 0 <= k < passes@.len() implies pass_wf(#[trigger] passes@[k], cur[k], *image_constraints, *virtual_images, surface)
                        && subpass_binds_node(passes@[k], graph.spec_node(cur[k]), *virtual_images) by {
                        if k < passes@.len() - 1 {
                            assert(cur[k] == prev[k]);
                        }
                    }
                    assert forall|k: int| 0 <= k < passes@.len() implies Ok::<Option<PassBuild>, RenderGraphPlanError>(Some(build_state(#[trigger] passes@[k], passes@[k].subpasses@[0])))
                        == spec_build_pass(*graph, cur[k], *image_constraints, *virtual_images, surface) by {
                        if k < passes@.len() - 1 {
                            assert(cur[k] == prev[k]);
                        }
                    }
                }
            },
            None => {
                proof {
                    assert(pass_nodes(*graph, node_execution_order@, (si + 1) as nat) == prev);
                }
            },
        }
    }
    Ok(passes)
}
} // verus!
