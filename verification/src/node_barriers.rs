use vstd::prelude::*;
use crate::graph::{RenderGraphBuilder, RenderGraphNode, RenderGraphNodeId, RenderGraphImageUsageId, PhysicalImageId};
use crate::passes::slot_usage;
use crate::plan_error::RenderGraphPlanError;
use crate::image_spec::{flags_include, lemma_flags_union_includes, lemma_flags_include_order};

verus! {

/// `VK_ACCESS_SHADER_READ_BIT`
pub const ACCESS_SHADER_READ: u32 = 0x20;
/// `VK_ACCESS_COLOR_ATTACHMENT_READ_BIT`
pub const ACCESS_COLOR_ATTACHMENT_READ: u32 = 0x80;
/// `VK_ACCESS_COLOR_ATTACHMENT_WRITE_BIT`
pub const ACCESS_COLOR_ATTACHMENT_WRITE: u32 = 0x100;
/// `VK_ACCESS_DEPTH_STENCIL_ATTACHMENT_READ_BIT`
pub const ACCESS_DEPTH_STENCIL_ATTACHMENT_READ: u32 = 0x200;
/// `VK_ACCESS_DEPTH_STENCIL_ATTACHMENT_WRITE_BIT`
pub const ACCESS_DEPTH_STENCIL_ATTACHMENT_WRITE: u32 = 0x400;

/// `VK_PIPELINE_STAGE_TOP_OF_PIPE_BIT`
pub const STAGE_TOP_OF_PIPE: u32 = 0x1;
/// `VK_PIPELINE_STAGE_FRAGMENT_SHADER_BIT`
pub const STAGE_FRAGMENT_SHADER: u32 = 0x80;
/// `VK_PIPELINE_STAGE_EARLY_FRAGMENT_TESTS_BIT`
pub const STAGE_EARLY_FRAGMENT_TESTS: u32 = 0x100;
/// `VK_PIPELINE_STAGE_LATE_FRAGMENT_TESTS_BIT`
pub const STAGE_LATE_FRAGMENT_TESTS: u32 = 0x200;
/// `VK_PIPELINE_STAGE_COLOR_ATTACHMENT_OUTPUT_BIT`
pub const STAGE_COLOR_ATTACHMENT_OUTPUT: u32 = 0x400;

/// `VK_IMAGE_LAYOUT_COLOR_ATTACHMENT_OPTIMAL`
pub const LAYOUT_COLOR_ATTACHMENT_OPTIMAL: i32 = 2;
/// `VK_IMAGE_LAYOUT_DEPTH_STENCIL_ATTACHMENT_OPTIMAL`
pub const LAYOUT_DEPTH_STENCIL_ATTACHMENT_OPTIMAL: i32 = 3;
/// `VK_IMAGE_LAYOUT_SHADER_READ_ONLY_OPTIMAL`
pub const LAYOUT_SHADER_READ_ONLY_OPTIMAL: i32 = 5;

/// Memory access (`VkAccessFlags`) and pipeline stages (`VkPipelineStageFlags`).
#[derive(Clone, Copy, Debug, PartialEq, Eq, Structural)]
pub struct RenderGraphImageBarrier {
    pub access_flags: u32,
    pub stage_flags: u32,
}

/// What a node needs of one physical image: the accesses to make visible before it runs
/// (`invalidate`), those it leaves to make visible after (`flush`), the layout the image must be
/// in, and how the node uses the image.
#[derive(Clone, Copy, Debug, PartialEq, Eq, Structural)]
pub struct RenderGraphPassImageBarriers {
    pub invalidate: RenderGraphImageBarrier,
    pub flush: RenderGraphImageBarrier,
    pub layout: i32,
    pub used_by_attachment: bool,
    pub used_by_sampling: bool,
}

#[derive(Clone, Copy, Debug, PartialEq, Eq, Structural)]
pub struct NodeImageBarrier {
    pub image: PhysicalImageId,
    pub barrier: RenderGraphPassImageBarriers,
}

/// The barriers of one node, one per physical image, in the order the node first touches them.
#[derive(Clone, Debug)]
pub struct RenderGraphNodeImageBarriers {
    pub barriers: Vec<NodeImageBarrier>,
}

/// What one attachment slot or sampled image of a node adds to the barrier of its image.
#[derive(Clone, Copy, Debug, PartialEq, Eq, Structural)]
pub struct BarrierContribution {
    pub image: PhysicalImageId,
    pub layout: i32,
    pub invalidate: RenderGraphImageBarrier,
    pub flush: RenderGraphImageBarrier,
    pub attachment: bool,
    pub sampling: bool,
}

pub open spec fn physical_of(u2p: Seq<Option<PhysicalImageId>>, u: RenderGraphImageUsageId) -> PhysicalImageId {
    u2p[u.0 as int]->0
}

pub open spec fn no_barrier() -> RenderGraphImageBarrier {
    RenderGraphImageBarrier { access_flags: 0, stage_flags: 0 }
}

pub open spec fn color_contribution(ca: crate::graph::RenderGraphPassColorAttachmentInfo, u2p: Seq<Option<PhysicalImageId>>) -> BarrierContribution {
    BarrierContribution {
        image: physical_of(u2p, slot_usage(ca.read_image, ca.write_image)->0),
        layout: LAYOUT_COLOR_ATTACHMENT_OPTIMAL,
        invalidate: if ca.read_image is Some {
            RenderGraphImageBarrier {
                access_flags: ACCESS_COLOR_ATTACHMENT_WRITE | ACCESS_COLOR_ATTACHMENT_READ,
                stage_flags: STAGE_COLOR_ATTACHMENT_OUTPUT,
            }
        } else {
            no_barrier()
        },
        flush: if ca.write_image is Some {
            RenderGraphImageBarrier { access_flags: ACCESS_COLOR_ATTACHMENT_WRITE, stage_flags: STAGE_COLOR_ATTACHMENT_OUTPUT }
        } else {
            no_barrier()
        },
        attachment: true,
        sampling: false,
    }
}

pub open spec fn resolve_contribution(ra: crate::graph::RenderGraphPassResolveAttachmentInfo, u2p: Seq<Option<PhysicalImageId>>) -> BarrierContribution {
    BarrierContribution {
        image: physical_of(u2p, ra.write_image),
        layout: LAYOUT_COLOR_ATTACHMENT_OPTIMAL,
        invalidate: no_barrier(),
        flush: RenderGraphImageBarrier { access_flags: ACCESS_COLOR_ATTACHMENT_WRITE, stage_flags: STAGE_COLOR_ATTACHMENT_OUTPUT },
        attachment: true,
        sampling: false,
    }
}

pub open spec fn depth_contribution(d: crate::graph::RenderGraphPassDepthAttachmentInfo, u2p: Seq<Option<PhysicalImageId>>) -> BarrierContribution {
    BarrierContribution {
        image: physical_of(u2p, slot_usage(d.read_image, d.write_image)->0),
        layout: LAYOUT_DEPTH_STENCIL_ATTACHMENT_OPTIMAL,
        invalidate: if d.read_image is Some && d.write_image is Some {
            RenderGraphImageBarrier {
                access_flags: ACCESS_DEPTH_STENCIL_ATTACHMENT_READ | ACCESS_DEPTH_STENCIL_ATTACHMENT_WRITE,
                stage_flags: STAGE_EARLY_FRAGMENT_TESTS | STAGE_LATE_FRAGMENT_TESTS,
            }
        } else if d.read_image is Some {
            RenderGraphImageBarrier {
                access_flags: ACCESS_DEPTH_STENCIL_ATTACHMENT_READ,
                stage_flags: STAGE_EARLY_FRAGMENT_TESTS | STAGE_LATE_FRAGMENT_TESTS,
            }
        } else {
            no_barrier()
        },
        flush: if d.write_image is Some {
            RenderGraphImageBarrier { access_flags: ACCESS_DEPTH_STENCIL_ATTACHMENT_WRITE, stage_flags: STAGE_LATE_FRAGMENT_TESTS }
        } else {
            no_barrier()
        },
        attachment: true,
        sampling: false,
    }
}

pub open spec fn sampled_contribution(s: RenderGraphImageUsageId, u2p: Seq<Option<PhysicalImageId>>) -> BarrierContribution {
    BarrierContribution {
        image: physical_of(u2p, s),
        layout: LAYOUT_SHADER_READ_ONLY_OPTIMAL,
        invalidate: RenderGraphImageBarrier { access_flags: ACCESS_SHADER_READ, stage_flags: STAGE_FRAGMENT_SHADER },
        flush: no_barrier(),
        attachment: false,
        sampling: true,
    }
}

pub open spec fn color_contributions(node: RenderGraphNode, u2p: Seq<Option<PhysicalImageId>>, n: nat) -> Seq<BarrierContribution>
    decreases n,
{
    if n == 0 {
        Seq::empty()
    } else {
        let prev = color_contributions(node, u2p, (n - 1) as nat);
        let slot = node.color_attachments@[n - 1];
        if slot is Some {
            prev.push(color_contribution(slot->0, u2p))
        } else {
            prev
        }
    }
}

pub open spec fn resolve_contributions(node: RenderGraphNode, u2p: Seq<Option<PhysicalImageId>>, n: nat) -> Seq<BarrierContribution>
    decreases n,
{
    if n == 0 {
        Seq::empty()
    } else {
        let prev = resolve_contributions(node, u2p, (n - 1) as nat);
        let slot = node.resolve_attachments@[n - 1];
        if slot is Some {
            prev.push(resolve_contribution(slot->0, u2p))
        } else {
            prev
        }
    }
}

/// Everything a node contributes to barriers: color slots, resolve slots, the depth slot, then
/// sampled images.
pub open spec fn node_contributions(node: RenderGraphNode, u2p: Seq<Option<PhysicalImageId>>) -> Seq<BarrierContribution> {
    color_contributions(node, u2p, node.color_attachments@.len())
        + resolve_contributions(node, u2p, node.resolve_attachments@.len())
        + (if node.depth_attachment is Some {
        seq![depth_contribution(node.depth_attachment->0, u2p)]
    } else {
        Seq::empty()
    })
        + node.sampled_images@.map_values(|s: RenderGraphImageUsageId| sampled_contribution(s, u2p))
}

/// Physical image `p` is the one some usage was given.
pub open spec fn is_assigned(u2p: Seq<Option<PhysicalImageId>>, p: PhysicalImageId) -> bool {
    exists|u: int| 0 <= u < u2p.len() && u2p[u] == Some(p)
}

/// Every barrier is on a physical image that some usage was given.
pub open spec fn all_assigned(list: Seq<NodeImageBarrier>, u2p: Seq<Option<PhysicalImageId>>) -> bool {
    forall|i: int| 0 <= i < list.len() ==> is_assigned(u2p, #[trigger] list[i].image)
}

pub open spec fn contributions_assigned(cs: Seq<BarrierContribution>, u2p: Seq<Option<PhysicalImageId>>) -> bool {
    forall|i: int| 0 <= i < cs.len() ==> is_assigned(u2p, #[trigger] cs[i].image)
}

proof fn lemma_accumulate_assigned(list: Seq<NodeImageBarrier>, c: BarrierContribution, u2p: Seq<Option<PhysicalImageId>>)
    requires
        all_assigned(list, u2p),
        is_assigned(u2p, c.image),
    ensures
        all_assigned(accumulate(list, c), u2p),
{
    let r = accumulate(list, c);
    let j = find_barrier(list, c.image, list.len());
    lemma_find_barrier_range(list, c.image, list.len());
    assert forall|i: int| 0 <= i < r.len() implies is_assigned(u2p, #[trigger] r[i].image) by {
        if j >= 0 {
            if i != j {
                assert(r[i] == list[i]);
            }
        } else if i < list.len() {
            assert(r[i] == list[i]);
        }
    }
}

proof fn lemma_find_barrier_range(list: Seq<NodeImageBarrier>, p: PhysicalImageId, n: nat)
    ensures
        -1 <= find_barrier(list, p, n) < n as int,
    decreases n,
{
    if n > 0 {
        lemma_find_barrier_range(list, p, (n - 1) as nat);
    }
}

/// Index of the barrier for image `p` among the first `n` entries, or -1.
pub open spec fn find_barrier(list: Seq<NodeImageBarrier>, p: PhysicalImageId, n: nat) -> int
    decreases n,
{
    if n == 0 {
        -1
    } else {
        let prev = find_barrier(list, p, (n - 1) as nat);
        if prev >= 0 {
            prev
        } else if list[n - 1].image == p {
            n - 1
        } else {
            -1
        }
    }
}

/// Adds a contribution: to the barrier of its image if there is one (the layout stays that of
/// the first use), or as a new barrier.
pub open spec fn accumulate(list: Seq<NodeImageBarrier>, c: BarrierContribution) -> Seq<NodeImageBarrier> {
    let i = find_barrier(list, c.image, list.len());
    if i >= 0 {
        let b = list[i].barrier;
        list.update(i, NodeImageBarrier {
            image: c.image,
            barrier: RenderGraphPassImageBarriers {
                invalidate: RenderGraphImageBarrier {
                    access_flags: b.invalidate.access_flags | c.invalidate.access_flags,
                    stage_flags: b.invalidate.stage_flags | c.invalidate.stage_flags,
                },
                flush: RenderGraphImageBarrier {
                    access_flags: b.flush.access_flags | c.flush.access_flags,
                    stage_flags: b.flush.stage_flags | c.flush.stage_flags,
                },
                layout: b.layout,
                used_by_attachment: b.used_by_attachment || c.attachment,
                used_by_sampling: b.used_by_sampling || c.sampling,
            },
        })
    } else {
        list.push(NodeImageBarrier {
            image: c.image,
            barrier: RenderGraphPassImageBarriers {
                invalidate: RenderGraphImageBarrier {
                    access_flags: 0 | c.invalidate.access_flags,
                    stage_flags: 0 | c.invalidate.stage_flags,
                },
                flush: RenderGraphImageBarrier {
                    access_flags: 0 | c.flush.access_flags,
                    stage_flags: 0 | c.flush.stage_flags,
                },
                layout: c.layout,
                used_by_attachment: false || c.attachment,
                used_by_sampling: false || c.sampling,
            },
        })
    }
}

pub open spec fn accumulate_all(cs: Seq<BarrierContribution>, n: nat) -> Seq<NodeImageBarrier>
    decreases n,
{
    if n == 0 {
        Seq::empty()
    } else {
        accumulate(accumulate_all(cs, (n - 1) as nat), cs[n - 1])
    }
}

/// The barriers of a node.
pub open spec fn spec_node_barriers(node: RenderGraphNode, u2p: Seq<Option<PhysicalImageId>>) -> Seq<NodeImageBarrier> {
    let cs = node_contributions(node, u2p);
    accumulate_all(cs, cs.len())
}

fn apply_contribution(list: &mut Vec<NodeImageBarrier>, c: BarrierContribution)
    ensures
        final(list)@ == accumulate(old(list)@, c),
{
    let n = list.len();
    let mut k: usize = 0;
    let ghost l0 = list@;
    while k < n
        invariant
            l0 == old(list)@,
            list@ == l0,
            n == list@.len(),
            k <= n,
            find_barrier(list@, c.image, k as nat) == -1,
        decreases n - k,
    {
        if list[k].image == c.image {
            proof {
                assert(find_barrier(l0, c.image, (k + 1) as nat) == k);
                lemma_find_barrier_stays(l0, c.image, (k + 1) as nat, n as nat);
            }
            let b = list[k].barrier;
            list.set(k, NodeImageBarrier {
                image: c.image,
                barrier: RenderGraphPassImageBarriers {
                    invalidate: RenderGraphImageBarrier {
                        access_flags: b.invalidate.access_flags | c.invalidate.access_flags,
                        stage_flags: b.invalidate.stage_flags | c.invalidate.stage_flags,
                    },
                    flush: RenderGraphImageBarrier {
                        access_flags: b.flush.access_flags | c.flush.access_flags,
                        stage_flags: b.flush.stage_flags | c.flush.stage_flags,
                    },
                    layout: b.layout,
                    used_by_attachment: b.used_by_attachment || c.attachment,
                    used_by_sampling: b.used_by_sampling || c.sampling,
                },
            });
            return;
        }
        k = k + 1;
    }
    list.push(NodeImageBarrier {
        image: c.image,
        barrier: RenderGraphPassImageBarriers {
            invalidate: RenderGraphImageBarrier {
                access_flags: 0 | c.invalidate.access_flags,
                stage_flags: 0 | c.invalidate.stage_flags,
            },
            flush: RenderGraphImageBarrier {
                access_flags: 0 | c.flush.access_flags,
                stage_flags: 0 | c.flush.stage_flags,
            },
            layout: c.layout,
            used_by_attachment: false || c.attachment,
            used_by_sampling: false || c.sampling,
        },
    });
}

proof fn lemma_find_barrier_stays(list: Seq<NodeImageBarrier>, p: PhysicalImageId, i: nat, n: nat)
    requires
        i <= n,
        find_barrier(list, p, i) >= 0,
    ensures
        find_barrier(list, p, n) == find_barrier(list, p, i),
    decreases n - i,
{
    if i < n {
        lemma_find_barrier_stays(list, p, i, (n - 1) as nat);
    }
}


/// Usage `u` has a physical image.
pub open spec fn has_physical(u2p: Seq<Option<PhysicalImageId>>, u: RenderGraphImageUsageId) -> bool {
    u.0 < u2p.len() && u2p[u.0 as int] is Some
}

pub open spec fn usage_error(u2p: Seq<Option<PhysicalImageId>>, u: RenderGraphImageUsageId) -> Option<RenderGraphPlanError> {
    if has_physical(u2p, u) {
        None
    } else {
        Some(RenderGraphPlanError::UnassignedImage(u))
    }
}

/// The first of two possible errors.
pub open spec fn first_error(a: Option<RenderGraphPlanError>, b: Option<RenderGraphPlanError>) -> Option<RenderGraphPlanError> {
    if a is Some {
        a
    } else {
        b
    }
}

/// What is wrong with a color or depth slot: no image, or an image without a physical image.
pub open spec fn slot_error(
    read_image: Option<RenderGraphImageUsageId>,
    write_image: Option<RenderGraphImageUsageId>,
    id: RenderGraphNodeId,
    u2p: Seq<Option<PhysicalImageId>>,
) -> Option<RenderGraphPlanError> {
    let u = slot_usage(read_image, write_image);
    if u is None {
        Some(RenderGraphPlanError::AttachmentWithoutImage(id))
    } else {
        usage_error(u2p, u->0)
    }
}

pub open spec fn color_errors(node: RenderGraphNode, id: RenderGraphNodeId, u2p: Seq<Option<PhysicalImageId>>, n: nat) -> Option<RenderGraphPlanError>
    decreases n,
{
    if n == 0 {
        None
    } else {
        let slot = node.color_attachments@[n - 1];
        first_error(
            color_errors(node, id, u2p, (n - 1) as nat),
            if slot is Some {
                slot_error((slot->0).read_image, (slot->0).write_image, id, u2p)
            } else {
                None
            },
        )
    }
}

pub open spec fn resolve_errors(node: RenderGraphNode, u2p: Seq<Option<PhysicalImageId>>, n: nat) -> Option<RenderGraphPlanError>
    decreases n,
{
    if n == 0 {
        None
    } else {
        let slot = node.resolve_attachments@[n - 1];
        first_error(
            resolve_errors(node, u2p, (n - 1) as nat),
            if slot is Some {
                usage_error(u2p, (slot->0).write_image)
            } else {
                None
            },
        )
    }
}

pub open spec fn sampled_errors(node: RenderGraphNode, u2p: Seq<Option<PhysicalImageId>>, n: nat) -> Option<RenderGraphPlanError>
    decreases n,
{
    if n == 0 {
        None
    } else {
        first_error(sampled_errors(node, u2p, (n - 1) as nat), usage_error(u2p, node.sampled_images@[n - 1]))
    }
}

/// Why the barriers of a node cannot be built, in the order the slots are looked at: color
/// slots, resolve slots, the depth slot, then sampled images. `None` when they can.
pub open spec fn node_barrier_error(node: RenderGraphNode, id: RenderGraphNodeId, u2p: Seq<Option<PhysicalImageId>>) -> Option<RenderGraphPlanError> {
    first_error(
        color_errors(node, id, u2p, node.color_attachments@.len()),
        first_error(
            resolve_errors(node, u2p, node.resolve_attachments@.len()),
            first_error(
                if node.depth_attachment is Some {
                    slot_error((node.depth_attachment->0).read_image, (node.depth_attachment->0).write_image, id, u2p)
                } else {
                    None
                },
                sampled_errors(node, u2p, node.sampled_images@.len()),
            ),
        ),
    )
}

proof fn lemma_color_errors_stay(node: RenderGraphNode, id: RenderGraphNodeId, u2p: Seq<Option<PhysicalImageId>>, i: nat, n: nat)
    requires
        i <= n,
        color_errors(node, id, u2p, i) is Some,
    ensures
        color_errors(node, id, u2p, n) == color_errors(node, id, u2p, i),
    decreases n - i,
{
    if i < n {
        lemma_color_errors_stay(node, id, u2p, i, (n - 1) as nat);
    }
}

proof fn lemma_resolve_errors_stay(node: RenderGraphNode, u2p: Seq<Option<PhysicalImageId>>, i: nat, n: nat)
    requires
        i <= n,
        resolve_errors(node, u2p, i) is Some,
    ensures
        resolve_errors(node, u2p, n) == resolve_errors(node, u2p, i),
    decreases n - i,
{
    if i < n {
        lemma_resolve_errors_stay(node, u2p, i, (n - 1) as nat);
    }
}

proof fn lemma_sampled_errors_stay(node: RenderGraphNode, u2p: Seq<Option<PhysicalImageId>>, i: nat, n: nat)
    requires
        i <= n,
        sampled_errors(node, u2p, i) is Some,
    ensures
        sampled_errors(node, u2p, n) == sampled_errors(node, u2p, i),
    decreases n - i,
{
    if i < n {
        lemma_sampled_errors_stay(node, u2p, i, (n - 1) as nat);
    }
}

fn lookup_physical(u2p: &Vec<Option<PhysicalImageId>>, usage: RenderGraphImageUsageId) -> (r: Result<PhysicalImageId, RenderGraphPlanError>)
    ensures
        r is Ok ==> usage.0 < u2p@.len() && u2p@[usage.0 as int] == Some(r->Ok_0),
        r is Ok ==> is_assigned(u2p@, r->Ok_0),
        r is Err <==> !has_physical(u2p@, usage),
        r is Err ==> r->Err_0 == RenderGraphPlanError::UnassignedImage(usage),
{
    if usage.0 < u2p.len() {
        match u2p[usage.0] {
            Some(p) => Ok(p),
            None => Err(RenderGraphPlanError::UnassignedImage(usage)),
        }
    } else {
        Err(RenderGraphPlanError::UnassignedImage(usage))
    }
}

/// Computes what a node needs of each physical image it uses.
pub fn build_barriers_for_node(
    graph: &RenderGraphBuilder,
    node_id: RenderGraphNodeId,
    usage_to_physical: &Vec<Option<PhysicalImageId>>,
) -> (r: Result<RenderGraphNodeImageBarriers, RenderGraphPlanError>)
    requires
        node_id.0 < graph.nodes@.len(),
    ensures
        r is Ok ==> r->Ok_0.barriers@ == spec_node_barriers(graph.spec_node(node_id), usage_to_physical@),
        r is Ok ==> all_assigned(r->Ok_0.barriers@, usage_to_physical@),
        r is Err <==> node_barrier_error(graph.spec_node(node_id), node_id, usage_to_physical@) is Some,
        r is Err ==> node_barrier_error(graph.spec_node(node_id), node_id, usage_to_physical@) == Some(r->Err_0),
{
    let node = graph.node(node_id);
    let ghost u2p = usage_to_physical@;
    let ghost nd = *node;
    let mut contributions: Vec<BarrierContribution> = Vec::new();
    let ncolor = node.color_attachments.len();
    for ci in 0..ncolor
        invariant
            ncolor == node.color_attachments@.len(),
            u2p == usage_to_physical@,
            nd == *node,
            nd == graph.spec_node(node_id),
            contributions@ == color_contributions(*node, u2p, ci as nat),
            contributions_assigned(contributions@, u2p),
            color_errors(nd, node_id, u2p, ci as nat) is None,
    {
        if let Some(ca) = &node.color_attachments[ci] {
            let usage = match ca.read_image {
                Some(u) => u,
                None => match ca.write_image {
                    Some(u) => u,
                    None => {
                        proof {
                            lemma_color_errors_stay(nd, node_id, u2p, (ci + 1) as nat, ncolor as nat);
                        }
                        return Err(RenderGraphPlanError::AttachmentWithoutImage(node_id));
                    },
                },
            };
            let p = match lookup_physical(usage_to_physical, usage) {
                Ok(p) => p,
                Err(e) => {
                    proof {
                        lemma_color_errors_stay(nd, node_id, u2p, (ci + 1) as nat, ncolor as nat);
                    }
                    return Err(e);
                },
            };
            let invalidate = if ca.read_image.is_some() {
                RenderGraphImageBarrier {
                    access_flags: ACCESS_COLOR_ATTACHMENT_WRITE | ACCESS_COLOR_ATTACHMENT_READ,
                    stage_flags: STAGE_COLOR_ATTACHMENT_OUTPUT,
                }
            } else {
                RenderGraphImageBarrier { access_flags: 0, stage_flags: 0 }
            };
            let flush = if ca.write_image.is_some() {
                RenderGraphImageBarrier { access_flags: ACCESS_COLOR_ATTACHMENT_WRITE, stage_flags: STAGE_COLOR_ATTACHMENT_OUTPUT }
            } else {
                RenderGraphImageBarrier { access_flags: 0, stage_flags: 0 }
            };
            contributions.push(BarrierContribution {
                image: p,
                layout: LAYOUT_COLOR_ATTACHMENT_OPTIMAL,
                invalidate,
                flush,
                attachment: true,
                sampling: false,
            });
        }
    }
    let ghost cc = contributions@;
    let mut resolves: Vec<BarrierContribution> = Vec::new();
    let nresolve = node.resolve_attachments.len();
    for ri in 0..nresolve
        invariant
            nresolve == node.resolve_attachments@.len(),
            u2p == usage_to_physical@,
            resolves@ == resolve_contributions(*node, u2p, ri as nat),
            contributions_assigned(resolves@, u2p),
            nd == *node,
            nd == graph.spec_node(node_id),
            color_errors(nd, node_id, u2p, nd.color_attachments@.len()) is None,
            resolve_errors(nd, u2p, ri as nat) is None,
    {
        if let Some(ra) = &node.resolve_attachments[ri] {
            let p = match lookup_physical(usage_to_physical, ra.write_image) {
                Ok(p) => p,
                Err(e) => {
                    proof {
                        lemma_resolve_errors_stay(nd, u2p, (ri + 1) as nat, nresolve as nat);
                    }
                    return Err(e);
                },
            };
            resolves.push(BarrierContribution {
                image: p,
                layout: LAYOUT_COLOR_ATTACHMENT_OPTIMAL,
                invalidate: RenderGraphImageBarrier { access_flags: 0, stage_flags: 0 },
                flush: RenderGraphImageBarrier { access_flags: ACCESS_COLOR_ATTACHMENT_WRITE, stage_flags: STAGE_COLOR_ATTACHMENT_OUTPUT },
                attachment: true,
                sampling: false,
            });
        }
    }
    let mut rest: Vec<BarrierContribution> = Vec::new();
    if let Some(d) = &node.depth_attachment {
        let usage = match d.read_image {
            Some(u) => u,
            None => match d.write_image {
                Some(u) => u,
                None => {
                    return Err(RenderGraphPlanError::AttachmentWithoutImage(node_id));
                },
            },
        };
        let p = match lookup_physical(usage_to_physical, usage) {
            Ok(p) => p,
            Err(e) => {
                return Err(e);
            },
        };
        let invalidate = if d.read_image.is_some() && d.write_image.is_some() {
            RenderGraphImageBarrier {
                access_flags: ACCESS_DEPTH_STENCIL_ATTACHMENT_READ | ACCESS_DEPTH_STENCIL_ATTACHMENT_WRITE,
                stage_flags: STAGE_EARLY_FRAGMENT_TESTS | STAGE_LATE_FRAGMENT_TESTS,
            }
        } else if d.read_image.is_some() {
            RenderGraphImageBarrier {
                access_flags: ACCESS_DEPTH_STENCIL_ATTACHMENT_READ,
                stage_flags: STAGE_EARLY_FRAGMENT_TESTS | STAGE_LATE_FRAGMENT_TESTS,
            }
        } else {
            RenderGraphImageBarrier { access_flags: 0, stage_flags: 0 }
        };
        let flush = if d.write_image.is_some() {
            RenderGraphImageBarrier { access_flags: ACCESS_DEPTH_STENCIL_ATTACHMENT_WRITE, stage_flags: STAGE_LATE_FRAGMENT_TESTS }
        } else {
            RenderGraphImageBarrier { access_flags: 0, stage_flags: 0 }
        };
        rest.push(BarrierContribution {
            image: p,
            layout: LAYOUT_DEPTH_STENCIL_ATTACHMENT_OPTIMAL,
            invalidate,
            flush,
            attachment: true,
            sampling: false,
        });
    }
    let ghost dc = rest@;
    let nsampled = node.sampled_images.len();
    for si in 0..nsampled
        invariant
            nsampled == node.sampled_images@.len(),
            u2p == usage_to_physical@,
            rest@ == dc + node.sampled_images@.take(si as int).map_values(|s: RenderGraphImageUsageId| sampled_contribution(s, u2p)),
            contributions_assigned(rest@, u2p),
            nd == *node,
            nd == graph.spec_node(node_id),
            color_errors(nd, node_id, u2p, nd.color_attachments@.len()) is None,
            resolve_errors(nd, u2p, nd.resolve_attachments@.len()) is None,
            (if nd.depth_attachment is Some {
                slot_error((nd.depth_attachment->0).read_image, (nd.depth_attachment->0).write_image, node_id, u2p)
            } else {
                None
            }) is None,
            sampled_errors(nd, u2p, si as nat) is None,
    {
        let s = node.sampled_images[si];
        let p = match lookup_physical(usage_to_physical, s) {
            Ok(p) => p,
            Err(e) => {
                proof {
                    lemma_sampled_errors_stay(nd, u2p, (si + 1) as nat, nsampled as nat);
                }
                return Err(e);
            },
        };
        rest.push(BarrierContribution {
            image: p,
            layout: LAYOUT_SHADER_READ_ONLY_OPTIMAL,
            invalidate: RenderGraphImageBarrier { access_flags: ACCESS_SHADER_READ, stage_flags: STAGE_FRAGMENT_SHADER },
            flush: RenderGraphImageBarrier { access_flags: 0, stage_flags: 0 },
            attachment: false,
            sampling: true,
        });
        proof {
            assert(node.sampled_images@.take(si + 1) == node.sampled_images@.take(si as int).push(s));
        }
    }
    contributions.append(&mut resolves);
    contributions.append(&mut rest);
    proof {
        assert(node.sampled_images@.take(nsampled as int) == node.sampled_images@);
        assert(contributions@ == node_contributions(*node, u2p));
    }
    let mut barriers: Vec<NodeImageBarrier> = Vec::new();
    let ncontrib = contributions.len();
    for k in 0..ncontrib
        invariant
            ncontrib == contributions@.len(),
            barriers@ == accumulate_all(contributions@, k as nat),
            contributions_assigned(contributions@, u2p),
            all_assigned(barriers@, u2p),
            u2p == usage_to_physical@,
    {
        proof {
            lemma_accumulate_assigned(barriers@, contributions@[k as int], u2p);
        }
        apply_contribution(&mut barriers, contributions[k]);
    }
    Ok(RenderGraphNodeImageBarriers { barriers })
}

/// The barriers of every node: those of each scheduled node as `spec_node_barriers` gives them,
/// none for other nodes, each on assigned physical images.
pub open spec fn node_barriers_built(
    graph: RenderGraphBuilder,
    order: Seq<RenderGraphNodeId>,
    u2p: Seq<Option<PhysicalImageId>>,
    b: Seq<Option<RenderGraphNodeImageBarriers>>,
) -> bool {
    &&& b.len() == graph.nodes@.len()
    &&& forall|k: int| 0 <= k < order.len() ==> {
        let id = (#[trigger] order[k]).0 as int;
        &&& b[id] is Some
        &&& b[id]->0.barriers@ == spec_node_barriers(graph.nodes@[id], u2p)
    }
    &&& forall|n: int| 0 <= n < b.len() && (#[trigger] b[n]) is Some ==> b[n]->0.barriers@ == spec_node_barriers(graph.nodes@[n], u2p)
        && all_assigned(b[n]->0.barriers@, u2p)
}

/// The barriers of every scheduled node, indexed by node id (`None` for culled nodes).
pub fn build_node_barriers(
    graph: &RenderGraphBuilder,
    node_execution_order: &Vec<RenderGraphNodeId>,
    usage_to_physical: &Vec<Option<PhysicalImageId>>,
) -> (r: Result<Vec<Option<RenderGraphNodeImageBarriers>>, RenderGraphPlanError>)
    requires
        forall|k: int| 0 <= k < node_execution_order@.len() ==> (#[trigger] node_execution_order@[k]).0 < graph.nodes@.len(),
    ensures
        r is Ok ==> node_barriers_built(*graph, node_execution_order@, usage_to_physical@, r->Ok_0@),
        r is Ok <==> forall|k: int| 0 <= k < node_execution_order@.len() ==> node_barrier_error(
            graph.nodes@[(#[trigger] node_execution_order@[k]).0 as int],
            node_execution_order@[k],
            usage_to_physical@,
        ) is None,
        r is Err ==> exists|k: int| 0 <= k < node_execution_order@.len()
            && (forall|j: int| 0 <= j < k ==> node_barrier_error(graph.nodes@[(#[trigger] node_execution_order@[j]).0 as int], node_execution_order@[j], usage_to_physical@) is None)
            && node_barrier_error(graph.nodes@[node_execution_order@[k].0 as int], node_execution_order@[k], usage_to_physical@) == Some(r->Err_0),
{
    let nn = graph.nodes.len();
    let mut barriers: Vec<Option<RenderGraphNodeImageBarriers>> = Vec::new();
    for i in 0..nn
        invariant
            barriers@.len() == i,
            forall|j: int| 0 <= j < i ==> barriers@[j] is None,
    {
        barriers.push(None);
    }
    let n = node_execution_order.len();
    for oi in 0..n
        invariant
            n == node_execution_order@.len(),
            forall|k: int| 0 <= k < node_execution_order@.len() ==> (#[trigger] node_execution_order@[k]).0 < graph.nodes@.len(),
            barriers@.len() == graph.nodes@.len(),
            forall|k: int| 0 <= k < oi ==> {
                let id = (#[trigger] node_execution_order@[k]).0 as int;
                &&& barriers@[id] is Some
            },
            forall|m: int| 0 <= m < barriers@.len() && (#[trigger] barriers@[m]) is Some ==> barriers@[m]->0.barriers@ == spec_node_barriers(graph.nodes@[m], usage_to_physical@)
                && all_assigned(barriers@[m]->0.barriers@, usage_to_physical@),
            forall|k: int| 0 <= k < oi ==> node_barrier_error(graph.nodes@[(#[trigger] node_execution_order@[k]).0 as int], node_execution_order@[k], usage_to_physical@) is None,
    {
        let node_id = node_execution_order[oi];
        let b = match build_barriers_for_node(graph, node_id, usage_to_physical) {
            Ok(b) => b,
            Err(e) => {
                proof {
                    assert(node_barrier_error(graph.nodes@[node_execution_order@[oi as int].0 as int], node_execution_order@[oi as int], usage_to_physical@) == Some(e));
                }
                return Err(e);
            },
        };
        barriers.set(node_id.0, Some(b));
    }
    Ok(barriers)
}

/// The layout of the first of the first `n` contributions that is on image `p`, if any.
pub open spec fn first_layout(cs: Seq<BarrierContribution>, p: PhysicalImageId, n: nat) -> Option<i32>
    decreases n,
{
    if n == 0 {
        None
    } else {
        let prev = first_layout(cs, p, (n - 1) as nat);
        if prev is Some {
            prev
        } else if cs[n - 1].image == p {
            Some(cs[n - 1].layout)
        } else {
            None
        }
    }
}

proof fn lemma_find_barrier_found(list: Seq<NodeImageBarrier>, p: PhysicalImageId, n: nat)
    requires
        n <= list.len(),
        find_barrier(list, p, n) >= 0,
    ensures
        list[find_barrier(list, p, n)].image == p,
    decreases n,
{
    if n > 0 && find_barrier(list, p, (n - 1) as nat) >= 0 {
        lemma_find_barrier_found(list, p, (n - 1) as nat);
    }
}

proof fn lemma_find_barrier_same_images(a: Seq<NodeImageBarrier>, b: Seq<NodeImageBarrier>, p: PhysicalImageId, n: nat)
    requires
        n <= a.len(),
        n <= b.len(),
        forall|k: int| 0 <= k < n ==> a[k].image == b[k].image,
    ensures
        find_barrier(a, p, n) == find_barrier(b, p, n),
    decreases n,
{
    if n > 0 {
        lemma_find_barrier_same_images(a, b, p, (n - 1) as nat);
    }
}

/// The barrier a node keeps for an image has the layout of the first slot or sampled image that
/// touched it, and every image a contribution touched has a barrier.
pub proof fn lemma_barrier_layout_is_first_use(cs: Seq<BarrierContribution>, n: nat)
    requires
        n <= cs.len(),
    ensures
        forall|i: int| 0 <= i < accumulate_all(cs, n).len() ==> first_layout(cs, #[trigger] accumulate_all(cs, n)[i].image, n)
            == Some(accumulate_all(cs, n)[i].barrier.layout),
        forall|p: PhysicalImageId| (#[trigger] first_layout(cs, p, n)) is Some ==> {
            let l = accumulate_all(cs, n);
            find_barrier(l, p, l.len()) >= 0
        },
    decreases n,
{
    if n > 0 {
        lemma_barrier_layout_is_first_use(cs, (n - 1) as nat);
        let l = accumulate_all(cs, (n - 1) as nat);
        let c = cs[n - 1];
        let r = accumulate_all(cs, n);
        assert(r == accumulate(l, c));
        let j = find_barrier(l, c.image, l.len());
        lemma_find_barrier_range(l, c.image, l.len());
        if j >= 0 {
            lemma_find_barrier_found(l, c.image, l.len());
            assert(r.len() == l.len());
            assert forall|k: int| 0 <= k < r.len() implies r[k].image == l[k].image && r[k].barrier.layout == l[k].barrier.layout by {
                if k != j {
                    assert(r[k] == l[k]);
                }
            }
            assert forall|i: int| 0 <= i < r.len() implies first_layout(cs, #[trigger] r[i].image, n) == Some(r[i].barrier.layout) by {
                assert(first_layout(cs, l[i].image, (n - 1) as nat) == Some(l[i].barrier.layout));
            }
            assert forall|q: PhysicalImageId| (#[trigger] first_layout(cs, q, n)) is Some implies find_barrier(r, q, r.len()) >= 0 by {
                lemma_find_barrier_same_images(r, l, q, r.len());
                if first_layout(cs, q, (n - 1) as nat) is None {
                    assert(c.image == q);
                }
            }
        } else {
            assert(r.len() == l.len() + 1);
            assert forall|k: int| 0 <= k < l.len() implies r[k] == l[k] by {}
            lemma_find_barrier_same_images(r, l, c.image, l.len());
            assert forall|i: int| 0 <= i < r.len() implies first_layout(cs, #[trigger] r[i].image, n) == Some(r[i].barrier.layout) by {
                if i < l.len() {
                    assert(r[i] == l[i]);
                    assert(first_layout(cs, l[i].image, (n - 1) as nat) == Some(l[i].barrier.layout));
                } else {
                    assert(r[i].image == c.image);
                    if first_layout(cs, c.image, (n - 1) as nat) is Some {
                        assert(find_barrier(l, c.image, l.len()) >= 0);
                    }
                }
            }
            assert forall|q: PhysicalImageId| (#[trigger] first_layout(cs, q, n)) is Some implies find_barrier(r, q, r.len()) >= 0 by {
                lemma_find_barrier_same_images(r, l, q, l.len());
                if first_layout(cs, q, (n - 1) as nat) is Some {
                    assert(find_barrier(l, q, l.len()) >= 0);
                    lemma_find_barrier_stays(r, q, l.len(), r.len());
                } else {
                    assert(c.image == q);
                    assert(r[l.len() as int].image == q);
                }
            }
        }
    }
}

proof fn lemma_first_layout_at(cs: Seq<BarrierContribution>, p: PhysicalImageId, k0: int, n: nat)
    requires
        0 <= k0 < n <= cs.len(),
        cs[k0].image == p,
        forall|j: int| 0 <= j < k0 ==> (#[trigger] cs[j]).image != p,
    ensures
        first_layout(cs, p, n) == Some(cs[k0].layout),
    decreases n,
{
    if n > k0 + 1 {
        lemma_first_layout_at(cs, p, k0, (n - 1) as nat);
    } else {
        lemma_first_layout_none(cs, p, k0 as nat);
    }
}

proof fn lemma_first_layout_none(cs: Seq<BarrierContribution>, p: PhysicalImageId, n: nat)
    requires
        n <= cs.len(),
        forall|j: int| 0 <= j < n ==> (#[trigger] cs[j]).image != p,
    ensures
        first_layout(cs, p, n) is None,
    decreases n,
{
    if n > 0 {
        lemma_first_layout_none(cs, p, (n - 1) as nat);
    }
}

proof fn lemma_color_contributions_avoid(node: RenderGraphNode, u2p: Seq<Option<PhysicalImageId>>, n: nat, p: PhysicalImageId)
    requires
        n <= node.color_attachments@.len(),
        forall|j: int| 0 <= j < n && (#[trigger] node.color_attachments@[j]) is Some ==> {
            let ca = node.color_attachments@[j]->0;
            physical_of(u2p, slot_usage(ca.read_image, ca.write_image)->0) != p
        },
    ensures
        forall|i: int| 0 <= i < color_contributions(node, u2p, n).len() ==> (#[trigger] color_contributions(node, u2p, n)[i]).image != p,
    decreases n,
{
    if n > 0 {
        lemma_color_contributions_avoid(node, u2p, (n - 1) as nat, p);
        let prev = color_contributions(node, u2p, (n - 1) as nat);
        let r = color_contributions(node, u2p, n);
        assert forall|i: int| 0 <= i < r.len() implies (#[trigger] r[i]).image != p by {
            if i < prev.len() {
                assert(r[i] == prev[i]);
            } else {
                assert(node.color_attachments@[n - 1] is Some);
            }
        }
    }
}

proof fn lemma_resolve_contributions_avoid(node: RenderGraphNode, u2p: Seq<Option<PhysicalImageId>>, n: nat, p: PhysicalImageId)
    requires
        n <= node.resolve_attachments@.len(),
        forall|j: int| 0 <= j < n && (#[trigger] node.resolve_attachments@[j]) is Some ==>
            physical_of(u2p, (node.resolve_attachments@[j]->0).write_image) != p,
    ensures
        forall|i: int| 0 <= i < resolve_contributions(node, u2p, n).len() ==> (#[trigger] resolve_contributions(node, u2p, n)[i]).image != p,
    decreases n,
{
    if n > 0 {
        lemma_resolve_contributions_avoid(node, u2p, (n - 1) as nat, p);
        let prev = resolve_contributions(node, u2p, (n - 1) as nat);
        let r = resolve_contributions(node, u2p, n);
        assert forall|i: int| 0 <= i < r.len() implies (#[trigger] r[i]).image != p by {
            if i < prev.len() {
                assert(r[i] == prev[i]);
            } else {
                assert(node.resolve_attachments@[n - 1] is Some);
            }
        }
    }
}

/// The physical image of a node's depth slot gets a barrier in the depth-stencil attachment
/// layout, where no color or resolve slot of the node is on that image.
pub proof fn lemma_depth_barrier_layout(node: RenderGraphNode, u2p: Seq<Option<PhysicalImageId>>)
    requires
        node.depth_attachment is Some,
        slot_usage((node.depth_attachment->0).read_image, (node.depth_attachment->0).write_image) is Some,
        forall|j: int| 0 <= j < node.color_attachments@.len() && (#[trigger] node.color_attachments@[j]) is Some ==> {
            let ca = node.color_attachments@[j]->0;
            physical_of(u2p, slot_usage(ca.read_image, ca.write_image)->0) != physical_of(
                u2p,
                slot_usage((node.depth_attachment->0).read_image, (node.depth_attachment->0).write_image)->0,
            )
        },
        forall|j: int| 0 <= j < node.resolve_attachments@.len() && (#[trigger] node.resolve_attachments@[j]) is Some ==>
            physical_of(u2p, (node.resolve_attachments@[j]->0).write_image) != physical_of(
                u2p,
                slot_usage((node.depth_attachment->0).read_image, (node.depth_attachment->0).write_image)->0,
            ),
    ensures
        ({
            let d = node.depth_attachment->0;
            let p = physical_of(u2p, slot_usage(d.read_image, d.write_image)->0);
            let b = spec_node_barriers(node, u2p);
            &&& exists|i: int| 0 <= i < b.len() && b[i].image == p
            &&& forall|i: int| 0 <= i < b.len() && (#[trigger] b[i]).image == p ==> b[i].barrier.layout == LAYOUT_DEPTH_STENCIL_ATTACHMENT_OPTIMAL
        }),
{
    let d = node.depth_attachment->0;
    let p = physical_of(u2p, slot_usage(d.read_image, d.write_image)->0);
    let cs = node_contributions(node, u2p);
    let cc = color_contributions(node, u2p, node.color_attachments@.len());
    let rc = resolve_contributions(node, u2p, node.resolve_attachments@.len());
    lemma_color_contributions_avoid(node, u2p, node.color_attachments@.len(), p);
    lemma_resolve_contributions_avoid(node, u2p, node.resolve_attachments@.len(), p);
    let k0: int = (cc.len() + rc.len()) as int;
    assert(cs[k0] == depth_contribution(d, u2p));
    assert forall|j: int| 0 <= j < k0 implies (#[trigger] cs[j]).image != p by {
        if j < cc.len() {
            assert(cs[j] == cc[j]);
        } else {
            assert(cs[j] == rc[j - cc.len()]);
        }
    }
    lemma_first_layout_at(cs, p, k0, cs.len());
    lemma_barrier_layout_is_first_use(cs, cs.len());
    let b = spec_node_barriers(node, u2p);
    let i0 = find_barrier(b, p, b.len());
    lemma_find_barrier_found(b, p, b.len());
    lemma_find_barrier_range(b, p, b.len());
    assert(b[i0].image == p);
}

/// The barrier asks for at least what the contribution needs: its accesses and stages, and its
/// use by an attachment or by sampling.
pub open spec fn barrier_covers(b: RenderGraphPassImageBarriers, c: BarrierContribution) -> bool {
    &&& flags_include(b.invalidate.access_flags, c.invalidate.access_flags)
    &&& flags_include(b.invalidate.stage_flags, c.invalidate.stage_flags)
    &&& flags_include(b.flush.access_flags, c.flush.access_flags)
    &&& flags_include(b.flush.stage_flags, c.flush.stage_flags)
    &&& c.attachment ==> b.used_by_attachment
    &&& c.sampling ==> b.used_by_sampling
}

/// No two barriers of the list are on the same image.
pub open spec fn images_distinct(list: Seq<NodeImageBarrier>) -> bool {
    forall|a: int, b: int| 0 <= a < list.len() && 0 <= b < list.len() && a != b ==> (#[trigger] list[a]).image != (#[trigger] list[b]).image
}

proof fn lemma_find_barrier_absent(list: Seq<NodeImageBarrier>, p: PhysicalImageId, n: nat)
    requires
        n <= list.len(),
        find_barrier(list, p, n) < 0,
    ensures
        forall|k: int| 0 <= k < n ==> (#[trigger] list[k]).image != p,
    decreases n,
{
    if n > 0 {
        lemma_find_barrier_absent(list, p, (n - 1) as nat);
    }
}

proof fn lemma_flags_or_keeps(old_flags: u32, add: u32, want: u32)
    requires
        flags_include(old_flags, want),
    ensures
        flags_include(old_flags | add, want),
        flags_include(old_flags | add, add),
{
    lemma_flags_union_includes(old_flags, add);
    lemma_flags_include_order(old_flags | add, old_flags, want);
}

/// A node keeps one barrier per physical image, and the barrier of each image asks for at least
/// what every slot or sampled image on that image needs.
pub proof fn lemma_barriers_cover_contributions(cs: Seq<BarrierContribution>, n: nat)
    requires
        n <= cs.len(),
    ensures
        images_distinct(accumulate_all(cs, n)),
        forall|i: int| 0 <= i < n ==> {
            let l = accumulate_all(cs, n);
            let f = find_barrier(l, (#[trigger] cs[i]).image, l.len());
            &&& 0 <= f < l.len()
            &&& l[f].image == cs[i].image
            &&& barrier_covers(l[f].barrier, cs[i])
        },
    decreases n,
{
    if n > 0 {
        lemma_barriers_cover_contributions(cs, (n - 1) as nat);
        let l = accumulate_all(cs, (n - 1) as nat);
        let c = cs[n - 1];
        let r = accumulate_all(cs, n);
        assert(r == accumulate(l, c));
        let j = find_barrier(l, c.image, l.len());
        lemma_find_barrier_range(l, c.image, l.len());
        if j >= 0 {
            lemma_find_barrier_found(l, c.image, l.len());
            assert(r.len() == l.len());
            assert forall|k: int| 0 <= k < r.len() implies (#[trigger] r[k]).image == l[k].image by {
                if k != j {
                    assert(r[k] == l[k]);
                }
            }
            assert forall|a: int, b: int| 0 <= a < r.len() && 0 <= b < r.len() && a != b implies (#[trigger] r[a]).image != (#[trigger] r[b]).image by {
                assert(r[a].image == l[a].image && r[b].image == l[b].image);
            }
            assert forall|i: int| 0 <= i < n implies {
                let f = find_barrier(r, (#[trigger] cs[i]).image, r.len());
                &&& 0 <= f < r.len()
                &&& r[f].image == cs[i].image
                &&& barrier_covers(r[f].barrier, cs[i])
            } by {
                lemma_find_barrier_same_images(r, l, cs[i].image, r.len());
                let f = find_barrier(l, cs[i].image, l.len());
                let lb = l[j].barrier;
                if i < n - 1 {
                    assert(0 <= f < l.len() && l[f].image == cs[i].image && barrier_covers(l[f].barrier, cs[i]));
                    if f == j {
                        lemma_flags_or_keeps(lb.invalidate.access_flags, c.invalidate.access_flags, cs[i].invalidate.access_flags);
                        lemma_flags_or_keeps(lb.invalidate.stage_flags, c.invalidate.stage_flags, cs[i].invalidate.stage_flags);
                        lemma_flags_or_keeps(lb.flush.access_flags, c.flush.access_flags, cs[i].flush.access_flags);
                        lemma_flags_or_keeps(lb.flush.stage_flags, c.flush.stage_flags, cs[i].flush.stage_flags);
                    } else {
                        assert(r[f] == l[f]);
                    }
                } else {
                    assert(f == j);
                    lemma_flags_union_includes(lb.invalidate.access_flags, c.invalidate.access_flags);
                    lemma_flags_union_includes(lb.invalidate.stage_flags, c.invalidate.stage_flags);
                    lemma_flags_union_includes(lb.flush.access_flags, c.flush.access_flags);
                    lemma_flags_union_includes(lb.flush.stage_flags, c.flush.stage_flags);
                }
            }
        } else {
            lemma_find_barrier_absent(l, c.image, l.len());
            assert(r.len() == l.len() + 1);
            assert forall|k: int| 0 <= k < l.len() implies r[k] == l[k] by {}
            assert forall|a: int, b: int| 0 <= a < r.len() && 0 <= b < r.len() && a != b implies (#[trigger] r[a]).image != (#[trigger] r[b]).image by {
                if a < l.len() && b < l.len() {
                    assert(r[a] == l[a] && r[b] == l[b]);
                } else if a < l.len() {
                    assert(r[a] == l[a]);
                } else {
                    assert(r[b] == l[b]);
                }
            }
            assert forall|i: int| 0 <= i < n implies {
                let f = find_barrier(r, (#[trigger] cs[i]).image, r.len());
                &&& 0 <= f < r.len()
                &&& r[f].image == cs[i].image
                &&& barrier_covers(r[f].barrier, cs[i])
            } by {
                lemma_find_barrier_same_images(r, l, cs[i].image, l.len());
                if i < n - 1 {
                    let f = find_barrier(l, cs[i].image, l.len());
                    assert(0 <= f < l.len() && l[f].image == cs[i].image && barrier_covers(l[f].barrier, cs[i]));
                    lemma_find_barrier_stays(r, cs[i].image, l.len(), r.len());
                    assert(r[f] == l[f]);
                } else {
                    assert(r[l.len() as int].image == c.image);
                    lemma_flags_union_includes(0, c.invalidate.access_flags);
                    lemma_flags_union_includes(0, c.invalidate.stage_flags);
                    lemma_flags_union_includes(0, c.flush.access_flags);
                    lemma_flags_union_includes(0, c.flush.stage_flags);
                }
            }
        }
    }
}

/// How many of the first `n` slots are filled.
pub open spec fn filled_before<T>(slots: Seq<Option<T>>, n: nat) -> nat
    decreases n,
{
    if n == 0 {
        0
    } else {
        filled_before(slots, (n - 1) as nat) + if slots[n - 1] is Some { 1nat } else { 0nat }
    }
}

proof fn lemma_filled_before_grows<T>(slots: Seq<Option<T>>, j: nat, n: nat)
    requires
        j < n,
        slots[j as int] is Some,
    ensures
        filled_before(slots, j) < filled_before(slots, n),
    decreases n,
{
    if n > j + 1 {
        lemma_filled_before_grows(slots, j, (n - 1) as nat);
    }
}

proof fn lemma_color_contribution_at(node: RenderGraphNode, u2p: Seq<Option<PhysicalImageId>>, n: nat, j: int)
    requires
        n <= node.color_attachments@.len(),
        0 <= j < n,
        node.color_attachments@[j] is Some,
    ensures
        color_contributions(node, u2p, n).len() == filled_before(node.color_attachments@, n),
        color_contributions(node, u2p, n)[filled_before(node.color_attachments@, j as nat) as int]
            == color_contribution(node.color_attachments@[j]->0, u2p),
    decreases n,
{
    lemma_color_contributions_len(node, u2p, n);
    if n > j + 1 {
        lemma_color_contribution_at(node, u2p, (n - 1) as nat, j);
        lemma_filled_before_grows(node.color_attachments@, j as nat, (n - 1) as nat);
    } else {
        lemma_color_contributions_len(node, u2p, j as nat);
    }
}

proof fn lemma_color_contributions_len(node: RenderGraphNode, u2p: Seq<Option<PhysicalImageId>>, n: nat)
    requires
        n <= node.color_attachments@.len(),
    ensures
        color_contributions(node, u2p, n).len() == filled_before(node.color_attachments@, n),
    decreases n,
{
    if n > 0 {
        lemma_color_contributions_len(node, u2p, (n - 1) as nat);
    }
}

proof fn lemma_resolve_contributions_len(node: RenderGraphNode, u2p: Seq<Option<PhysicalImageId>>, n: nat)
    requires
        n <= node.resolve_attachments@.len(),
    ensures
        resolve_contributions(node, u2p, n).len() == filled_before(node.resolve_attachments@, n),
    decreases n,
{
    if n > 0 {
        lemma_resolve_contributions_len(node, u2p, (n - 1) as nat);
    }
}

proof fn lemma_resolve_contribution_at(node: RenderGraphNode, u2p: Seq<Option<PhysicalImageId>>, n: nat, j: int)
    requires
        n <= node.resolve_attachments@.len(),
        0 <= j < n,
        node.resolve_attachments@[j] is Some,
    ensures
        resolve_contributions(node, u2p, n)[filled_before(node.resolve_attachments@, j as nat) as int]
            == resolve_contribution(node.resolve_attachments@[j]->0, u2p),
    decreases n,
{
    lemma_resolve_contributions_len(node, u2p, n);
    if n > j + 1 {
        lemma_resolve_contribution_at(node, u2p, (n - 1) as nat, j);
        lemma_filled_before_grows(node.resolve_attachments@, j as nat, (n - 1) as nat);
    } else {
        lemma_resolve_contributions_len(node, u2p, j as nat);
    }
}

/// The barriers of a node cover the contribution at index `i`: its image has exactly one
/// barrier, which asks for at least what the contribution needs.
proof fn lemma_node_barrier_covers(node: RenderGraphNode, u2p: Seq<Option<PhysicalImageId>>, i: int)
    requires
        0 <= i < node_contributions(node, u2p).len(),
    ensures
        ({
            let c = node_contributions(node, u2p)[i];
            let b = spec_node_barriers(node, u2p);
            &&& exists|k: int| 0 <= k < b.len() && b[k].image == c.image
            &&& forall|k: int| 0 <= k < b.len() && (#[trigger] b[k]).image == c.image ==> barrier_covers(b[k].barrier, c)
        }),
{
    let cs = node_contributions(node, u2p);
    lemma_barriers_cover_contributions(cs, cs.len());
    let b = spec_node_barriers(node, u2p);
    let f = find_barrier(b, cs[i].image, b.len());
    assert(0 <= f < b.len() && b[f].image == cs[i].image);
    assert forall|k: int| 0 <= k < b.len() && (#[trigger] b[k]).image == cs[i].image implies barrier_covers(b[k].barrier, cs[i]) by {
        if k != f {
            assert(b[k].image != b[f].image);
        }
    }
}

/// The barrier of the physical image of a node's color slot marks it as used by an attachment,
/// waits for earlier color writes before the slot reads, and makes the slot's writes visible
/// after the node.
pub proof fn lemma_color_slot_barrier(node: RenderGraphNode, u2p: Seq<Option<PhysicalImageId>>, j: int)
    requires
        0 <= j < node.color_attachments@.len(),
        node.color_attachments@[j] is Some,
    ensures
        ({
            let ca = node.color_attachments@[j]->0;
            let p = physical_of(u2p, slot_usage(ca.read_image, ca.write_image)->0);
            let b = spec_node_barriers(node, u2p);
            &&& exists|k: int| 0 <= k < b.len() && b[k].image == p
            &&& forall|k: int| 0 <= k < b.len() && (#[trigger] b[k]).image == p ==> {
                let x = b[k].barrier;
                &&& x.used_by_attachment
                &&& ca.read_image is Some ==> flags_include(x.invalidate.access_flags, ACCESS_COLOR_ATTACHMENT_WRITE | ACCESS_COLOR_ATTACHMENT_READ)
                    && flags_include(x.invalidate.stage_flags, STAGE_COLOR_ATTACHMENT_OUTPUT)
                &&& ca.write_image is Some ==> flags_include(x.flush.access_flags, ACCESS_COLOR_ATTACHMENT_WRITE)
                    && flags_include(x.flush.stage_flags, STAGE_COLOR_ATTACHMENT_OUTPUT)
            }
        }),
{
    let n = node.color_attachments@.len();
    lemma_color_contribution_at(node, u2p, n as nat, j);
    let i = filled_before(node.color_attachments@, j as nat) as int;
    lemma_filled_before_grows(node.color_attachments@, j as nat, n as nat);
    assert(node_contributions(node, u2p)[i] == color_contribution(node.color_attachments@[j]->0, u2p));
    lemma_node_barrier_covers(node, u2p, i);
}

/// The barrier of the physical image of a node's resolve slot marks it as used by an attachment
/// and makes the resolved color visible after the node.
pub proof fn lemma_resolve_slot_barrier(node: RenderGraphNode, u2p: Seq<Option<PhysicalImageId>>, j: int)
    requires
        0 <= j < node.resolve_attachments@.len(),
        node.resolve_attachments@[j] is Some,
    ensures
        ({
            let p = physical_of(u2p, (node.resolve_attachments@[j]->0).write_image);
            let b = spec_node_barriers(node, u2p);
            &&& exists|k: int| 0 <= k < b.len() && b[k].image == p
            &&& forall|k: int| 0 <= k < b.len() && (#[trigger] b[k]).image == p ==> {
                let x = b[k].barrier;
                &&& x.used_by_attachment
                &&& flags_include(x.flush.access_flags, ACCESS_COLOR_ATTACHMENT_WRITE)
                &&& flags_include(x.flush.stage_flags, STAGE_COLOR_ATTACHMENT_OUTPUT)
            }
        }),
{
    let n = node.resolve_attachments@.len();
    lemma_resolve_contribution_at(node, u2p, n as nat, j);
    lemma_resolve_contributions_len(node, u2p, n as nat);
    lemma_color_contributions_len(node, u2p, node.color_attachments@.len() as nat);
    let cn = color_contributions(node, u2p, node.color_attachments@.len()).len();
    let i = (cn + filled_before(node.resolve_attachments@, j as nat)) as int;
    lemma_filled_before_grows(node.resolve_attachments@, j as nat, n as nat);
    assert(node_contributions(node, u2p)[i] == resolve_contribution(node.resolve_attachments@[j]->0, u2p));
    lemma_node_barrier_covers(node, u2p, i);
}

/// The barrier of the physical image of a node's depth slot marks it as used by an attachment,
/// waits for earlier depth writes before the slot reads (and writes over what it reads), and
/// makes the slot's writes visible after the node.
pub proof fn lemma_depth_slot_barrier(node: RenderGraphNode, u2p: Seq<Option<PhysicalImageId>>)
    requires
        node.depth_attachment is Some,
    ensures
        ({
            let d = node.depth_attachment->0;
            let p = physical_of(u2p, slot_usage(d.read_image, d.write_image)->0);
            let b = spec_node_barriers(node, u2p);
            &&& exists|k: int| 0 <= k < b.len() && b[k].image == p
            &&& forall|k: int| 0 <= k < b.len() && (#[trigger] b[k]).image == p ==> {
                let x = b[k].barrier;
                &&& x.used_by_attachment
                &&& d.read_image is Some ==> flags_include(x.invalidate.access_flags, ACCESS_DEPTH_STENCIL_ATTACHMENT_READ)
                    && flags_include(x.invalidate.stage_flags, STAGE_EARLY_FRAGMENT_TESTS | STAGE_LATE_FRAGMENT_TESTS)
                &&& d.read_image is Some && d.write_image is Some ==> flags_include(x.invalidate.access_flags, ACCESS_DEPTH_STENCIL_ATTACHMENT_READ | ACCESS_DEPTH_STENCIL_ATTACHMENT_WRITE)
                &&& d.write_image is Some ==> flags_include(x.flush.access_flags, ACCESS_DEPTH_STENCIL_ATTACHMENT_WRITE)
                    && flags_include(x.flush.stage_flags, STAGE_LATE_FRAGMENT_TESTS)
            }
        }),
{
    lemma_color_contributions_len(node, u2p, node.color_attachments@.len() as nat);
    lemma_resolve_contributions_len(node, u2p, node.resolve_attachments@.len() as nat);
    let cc = color_contributions(node, u2p, node.color_attachments@.len());
    let rc = resolve_contributions(node, u2p, node.resolve_attachments@.len());
    let i = (cc.len() + rc.len()) as int;
    let d = node.depth_attachment->0;
    assert(node_contributions(node, u2p)[i] == depth_contribution(d, u2p));
    lemma_node_barrier_covers(node, u2p, i);
    let x = ACCESS_DEPTH_STENCIL_ATTACHMENT_READ;
    let y = ACCESS_DEPTH_STENCIL_ATTACHMENT_READ | ACCESS_DEPTH_STENCIL_ATTACHMENT_WRITE;
    assert((0x200u32 | 0x400u32) & 0x200u32 == 0x200u32) by (bit_vector);
    assert(flags_include(y, x));
    let b = spec_node_barriers(node, u2p);
    assert forall|k: int| 0 <= k < b.len() && (#[trigger] b[k]).image == depth_contribution(d, u2p).image
        && d.read_image is Some && d.write_image is Some implies flags_include(b[k].barrier.invalidate.access_flags, x) by {
        lemma_flags_include_order(b[k].barrier.invalidate.access_flags, y, x);
    }
}

/// The barrier of the physical image of a node's sampled image marks it as used by sampling and
/// waits for earlier writes before fragment shaders read it.
pub proof fn lemma_sampled_image_barrier(node: RenderGraphNode, u2p: Seq<Option<PhysicalImageId>>, j: int)
    requires
        0 <= j < node.sampled_images@.len(),
    ensures
        ({
            let p = physical_of(u2p, node.sampled_images@[j]);
            let b = spec_node_barriers(node, u2p);
            &&& exists|k: int| 0 <= k < b.len() && b[k].image == p
            &&& forall|k: int| 0 <= k < b.len() && (#[trigger] b[k]).image == p ==> {
                let x = b[k].barrier;
                &&& x.used_by_sampling
                &&& flags_include(x.invalidate.access_flags, ACCESS_SHADER_READ)
                &&& flags_include(x.invalidate.stage_flags, STAGE_FRAGMENT_SHADER)
            }
        }),
{
    lemma_color_contributions_len(node, u2p, node.color_attachments@.len() as nat);
    lemma_resolve_contributions_len(node, u2p, node.resolve_attachments@.len() as nat);
    let cc = color_contributions(node, u2p, node.color_attachments@.len());
    let rc = resolve_contributions(node, u2p, node.resolve_attachments@.len());
    let dc: Seq<BarrierContribution> = if node.depth_attachment is Some {
        seq![depth_contribution(node.depth_attachment->0, u2p)]
    } else {
        Seq::empty()
    };
    let i = (cc.len() + rc.len() + dc.len() + j) as int;
    assert(node_contributions(node, u2p)[i] == sampled_contribution(node.sampled_images@[j], u2p));
    lemma_node_barrier_covers(node, u2p, i);
}

proof fn lemma_first_layout_uniform(cs: Seq<BarrierContribution>, p: PhysicalImageId, m: nat, layout: i32)
    requires
        m <= cs.len(),
        forall|k: int| 0 <= k < m && (#[trigger] cs[k]).image == p ==> cs[k].layout == layout,
    ensures
        first_layout(cs, p, m) is Some ==> first_layout(cs, p, m) == Some(layout),
    decreases m,
{
    if m > 0 {
        lemma_first_layout_uniform(cs, p, (m - 1) as nat, layout);
    }
}

proof fn lemma_first_layout_found(cs: Seq<BarrierContribution>, p: PhysicalImageId, k: int, m: nat, n: nat)
    requires
        0 <= k < m <= n <= cs.len(),
        cs[k].image == p,
    ensures
        first_layout(cs, p, m) is Some,
        first_layout(cs, p, n) == first_layout(cs, p, m),
    decreases n,
{
    if n > m {
        lemma_first_layout_found(cs, p, k, m, (n - 1) as nat);
    } else if m > k + 1 {
        lemma_first_layout_found(cs, p, k, (m - 1) as nat, (m - 1) as nat);
    }
}

proof fn lemma_color_contributions_layout(node: RenderGraphNode, u2p: Seq<Option<PhysicalImageId>>, n: nat)
    requires
        n <= node.color_attachments@.len(),
    ensures
        forall|k: int| 0 <= k < color_contributions(node, u2p, n).len() ==> (#[trigger] color_contributions(node, u2p, n)[k]).layout == LAYOUT_COLOR_ATTACHMENT_OPTIMAL,
    decreases n,
{
    if n > 0 {
        lemma_color_contributions_layout(node, u2p, (n - 1) as nat);
        let prev = color_contributions(node, u2p, (n - 1) as nat);
        let r = color_contributions(node, u2p, n);
        assert forall|k: int| 0 <= k < r.len() implies (#[trigger] r[k]).layout == LAYOUT_COLOR_ATTACHMENT_OPTIMAL by {
            if k < prev.len() {
                assert(r[k] == prev[k]);
            }
        }
    }
}

proof fn lemma_resolve_contributions_layout(node: RenderGraphNode, u2p: Seq<Option<PhysicalImageId>>, n: nat)
    requires
        n <= node.resolve_attachments@.len(),
    ensures
        forall|k: int| 0 <= k < resolve_contributions(node, u2p, n).len() ==> (#[trigger] resolve_contributions(node, u2p, n)[k]).layout == LAYOUT_COLOR_ATTACHMENT_OPTIMAL,
    decreases n,
{
    if n > 0 {
        lemma_resolve_contributions_layout(node, u2p, (n - 1) as nat);
        let prev = resolve_contributions(node, u2p, (n - 1) as nat);
        let r = resolve_contributions(node, u2p, n);
        assert forall|k: int| 0 <= k < r.len() implies (#[trigger] r[k]).layout == LAYOUT_COLOR_ATTACHMENT_OPTIMAL by {
            if k < prev.len() {
                assert(r[k] == prev[k]);
            }
        }
    }
}

/// The barrier of a physical image that the first `m` contributions touch, all in one layout,
/// is in that layout.
proof fn lemma_barrier_layout_from_prefix(node: RenderGraphNode, u2p: Seq<Option<PhysicalImageId>>, i: int, m: nat, layout: i32)
    requires
        0 <= i < m <= node_contributions(node, u2p).len(),
        forall|k: int| 0 <= k < m ==> (#[trigger] node_contributions(node, u2p)[k]).layout == layout,
    ensures
        ({
            let p = node_contributions(node, u2p)[i].image;
            let b = spec_node_barriers(node, u2p);
            forall|k: int| 0 <= k < b.len() && (#[trigger] b[k]).image == p ==> b[k].barrier.layout == layout
        }),
{
    let cs = node_contributions(node, u2p);
    let p = cs[i].image;
    lemma_first_layout_uniform(cs, p, m, layout);
    lemma_first_layout_found(cs, p, i, m, cs.len());
    lemma_barrier_layout_is_first_use(cs, cs.len());
}

/// The barrier of the physical image of a node's color slot is in the color attachment layout
/// (color slots come first, so a color slot's image is first touched by a color slot).
pub proof fn lemma_color_barrier_layout(node: RenderGraphNode, u2p: Seq<Option<PhysicalImageId>>, j: int)
    requires
        0 <= j < node.color_attachments@.len(),
        node.color_attachments@[j] is Some,
    ensures
        ({
            let ca = node.color_attachments@[j]->0;
            let p = physical_of(u2p, slot_usage(ca.read_image, ca.write_image)->0);
            let b = spec_node_barriers(node, u2p);
            forall|k: int| 0 <= k < b.len() && (#[trigger] b[k]).image == p ==> b[k].barrier.layout == LAYOUT_COLOR_ATTACHMENT_OPTIMAL
        }),
{
    let n = node.color_attachments@.len();
    lemma_color_contribution_at(node, u2p, n as nat, j);
    lemma_filled_before_grows(node.color_attachments@, j as nat, n as nat);
    lemma_color_contributions_layout(node, u2p, n as nat);
    let cs = node_contributions(node, u2p);
    let cc = color_contributions(node, u2p, n);
    let i = filled_before(node.color_attachments@, j as nat) as int;
    assert forall|k: int| 0 <= k < cc.len() implies (#[trigger] cs[k]).layout == LAYOUT_COLOR_ATTACHMENT_OPTIMAL by {
        assert(cs[k] == cc[k]);
    }
    assert(cs[i] == color_contribution(node.color_attachments@[j]->0, u2p));
    lemma_barrier_layout_from_prefix(node, u2p, i, cc.len(), LAYOUT_COLOR_ATTACHMENT_OPTIMAL);
}

/// The barrier of the physical image of a node's resolve slot is in the color attachment layout.
pub proof fn lemma_resolve_barrier_layout(node: RenderGraphNode, u2p: Seq<Option<PhysicalImageId>>, j: int)
    requires
        0 <= j < node.resolve_attachments@.len(),
        node.resolve_attachments@[j] is Some,
    ensures
        ({
            let p = physical_of(u2p, (node.resolve_attachments@[j]->0).write_image);
            let b = spec_node_barriers(node, u2p);
            forall|k: int| 0 <= k < b.len() && (#[trigger] b[k]).image == p ==> b[k].barrier.layout == LAYOUT_COLOR_ATTACHMENT_OPTIMAL
        }),
{
    let n = node.resolve_attachments@.len();
    lemma_resolve_contribution_at(node, u2p, n as nat, j);
    lemma_resolve_contributions_len(node, u2p, n as nat);
    lemma_filled_before_grows(node.resolve_attachments@, j as nat, n as nat);
    lemma_color_contributions_layout(node, u2p, node.color_attachments@.len() as nat);
    lemma_resolve_contributions_layout(node, u2p, n as nat);
    let cs = node_contributions(node, u2p);
    let cc = color_contributions(node, u2p, node.color_attachments@.len());
    let rc = resolve_contributions(node, u2p, n);
    let i = (cc.len() + filled_before(node.resolve_attachments@, j as nat)) as int;
    assert forall|k: int| 0 <= k < cc.len() + rc.len() implies (#[trigger] cs[k]).layout == LAYOUT_COLOR_ATTACHMENT_OPTIMAL by {
        if k < cc.len() {
            assert(cs[k] == cc[k]);
        } else {
            assert(cs[k] == rc[k - cc.len()]);
        }
    }
    assert(cs[i] == resolve_contribution(node.resolve_attachments@[j]->0, u2p));
    lemma_barrier_layout_from_prefix(node, u2p, i, (cc.len() + rc.len()) as nat, LAYOUT_COLOR_ATTACHMENT_OPTIMAL);
}

/// The barrier of the physical image of a node's sampled image is in the shader-read layout,
/// where no attachment slot of the node is on that image.
pub proof fn lemma_sampled_barrier_layout(node: RenderGraphNode, u2p: Seq<Option<PhysicalImageId>>, j: int)
    requires
        0 <= j < node.sampled_images@.len(),
        forall|c: int| 0 <= c < node.color_attachments@.len() && (#[trigger] node.color_attachments@[c]) is Some ==> {
            let ca = node.color_attachments@[c]->0;
            physical_of(u2p, slot_usage(ca.read_image, ca.write_image)->0) != physical_of(u2p, node.sampled_images@[j])
        },
        forall|r: int| 0 <= r < node.resolve_attachments@.len() && (#[trigger] node.resolve_attachments@[r]) is Some ==>
            physical_of(u2p, (node.resolve_attachments@[r]->0).write_image) != physical_of(u2p, node.sampled_images@[j]),
        node.depth_attachment is Some ==> physical_of(
            u2p,
            slot_usage((node.depth_attachment->0).read_image, (node.depth_attachment->0).write_image)->0,
        ) != physical_of(u2p, node.sampled_images@[j]),
    ensures
        ({
            let p = physical_of(u2p, node.sampled_images@[j]);
            let b = spec_node_barriers(node, u2p);
            &&& exists|k: int| 0 <= k < b.len() && b[k].image == p
            &&& forall|k: int| 0 <= k < b.len() && (#[trigger] b[k]).image == p ==> b[k].barrier.layout == LAYOUT_SHADER_READ_ONLY_OPTIMAL
        }),
{
    let p = physical_of(u2p, node.sampled_images@[j]);
    let cs = node_contributions(node, u2p);
    let cc = color_contributions(node, u2p, node.color_attachments@.len());
    let rc = resolve_contributions(node, u2p, node.resolve_attachments@.len());
    let dc: Seq<BarrierContribution> = if node.depth_attachment is Some {
        seq![depth_contribution(node.depth_attachment->0, u2p)]
    } else {
        Seq::empty()
    };
    let sc = node.sampled_images@.map_values(|s: RenderGraphImageUsageId| sampled_contribution(s, u2p));
    lemma_color_contributions_avoid(node, u2p, node.color_attachments@.len(), p);
    lemma_resolve_contributions_avoid(node, u2p, node.resolve_attachments@.len(), p);
    let base = cc.len() + rc.len() + dc.len();
    assert forall|k: int| 0 <= k < cs.len() && (#[trigger] cs[k]).image == p implies cs[k].layout == LAYOUT_SHADER_READ_ONLY_OPTIMAL by {
        if k < cc.len() {
            assert(cs[k] == cc[k]);
        } else if k < cc.len() + rc.len() {
            assert(cs[k] == rc[k - cc.len()]);
        } else if k < base {
            assert(cs[k] == dc[k - cc.len() - rc.len()]);
        } else {
            assert(cs[k] == sc[k - base]);
        }
    }
    let i = (base + j) as int;
    assert(cs[i] == sampled_contribution(node.sampled_images@[j], u2p));
    lemma_first_layout_uniform(cs, p, cs.len(), LAYOUT_SHADER_READ_ONLY_OPTIMAL);
    lemma_first_layout_found(cs, p, i, cs.len(), cs.len());
    lemma_barrier_layout_is_first_use(cs, cs.len());
    lemma_node_barrier_covers(node, u2p, i);
}
} // verus!
