use vstd::prelude::*;
use crate::image_spec::RenderGraphImageSpecification;
use crate::graph::{
    PhysicalImageId, PhysicalImageViewId, RenderGraphBuilder, RenderGraphNodeId, RenderGraphOutputImageId,
    RenderGraphImageUsageId, VirtualImageId,
};
use crate::descriptions::SwapchainSurfaceInfo;
use crate::image_spec::Extent2D;
use vstd::pervasive::arbitrary;
use crate::node_order::{contributes_to_output, determine_node_order, has_no_cycle_to_outputs, in_prefix, spec_node_order};
use crate::constraints::{determine_image_constraints, spec_determine_image_constraints, DetermineImageConstraintsResult};
use crate::resolves::{insert_resolves, resolved, resolves_blocked};
use crate::virtual_images::{try_assign_virtual_images, spec_assign_virtual, AssignVirtualImagesResult};
use crate::passes::{try_build_physical_passes, pass_nodes, built_passes, spec_build_pass, RenderGraphPass};
use crate::physical_images::{
    assign_physical_images, attachments_assigned, passes_wf, virtual_ids_below_count, virtual_images_share_specs,
    physical_assignment, physical_images_assignable, AssignPhysicalImagesResult, RenderGraphImageView,
};
use crate::node_barriers::{all_assigned, build_node_barriers, is_assigned, node_barrier_error, node_barriers_built, RenderGraphNodeImageBarriers};
use crate::pass_barriers::{build_pass_barriers, outcome_of_pass, barriers_of, barriers_in_range, pass_node, passes_ready, all_attachments_placed, transitions_to_undefined, SubpassDependency};
use crate::output_passes::{create_output_passes, output_pass_matches, pass_convertible, RenderGraphOutputPass};
use crate::plan_error::RenderGraphPlanError;

verus! {

/// An output image of the plan: which output of the graph it is and the caller's image view
/// it is written to.
#[derive(Clone, Copy, Debug, PartialEq, Eq, Structural)]
pub struct RenderGraphPlanOutputImage {
    pub output_id: RenderGraphOutputImageId,
    pub dst_image: u64,
}

/// What the planner produces: the renderpasses in execution order, the images the caller
/// provides (by view) and those the plan needs allocated (by physical image), the views, and
/// lookups from node to renderpass and from usage to physical image and view. Lookups are
/// indexed by the id they map from.
#[derive(Debug)]
pub struct RenderGraphPlan {
    pub passes: Vec<RenderGraphOutputPass>,
    pub output_images: Vec<Option<RenderGraphPlanOutputImage>>,
    pub intermediate_images: Vec<Option<RenderGraphImageSpecification>>,
    pub image_views: Vec<RenderGraphImageView>,
    pub node_to_renderpass_index: Vec<Option<usize>>,
    pub image_usage_to_physical: Vec<Option<PhysicalImageId>>,
    pub image_usage_to_view: Vec<Option<PhysicalImageViewId>>,
}

/// Every node that gets a renderpass is one of `order`.
proof fn lemma_pass_nodes_from_order(g: RenderGraphBuilder, order: Seq<RenderGraphNodeId>, n: nat)
    requires
        n <= order.len(),
    ensures
        forall|k: int| 0 <= k < pass_nodes(g, order, n).len() ==> exists|j: int| 0 <= j < n && #[trigger] order[j] == #[trigger] pass_nodes(g, order, n)[k],
    decreases n,
{
    if n > 0 {
        lemma_pass_nodes_from_order(g, order, (n - 1) as nat);
        let prev = pass_nodes(g, order, (n - 1) as nat);
        let cur = pass_nodes(g, order, n);
        assert forall|k: int| 0 <= k < cur.len() implies exists|j: int| 0 <= j < n && #[trigger] order[j] == #[trigger] cur[k] by {
            if k < prev.len() {
                assert(cur[k] == prev[k]);
                let j = choose|j: int| 0 <= j < n - 1 && #[trigger] order[j] == prev[k];
                assert(order[j] == cur[k]);
            } else {
                assert(order[n - 1] == cur[k]);
            }
        }
    }
}

fn none_vec<T>(n: usize) -> (r: Vec<Option<T>>)
    ensures
        r@.len() == n,
        forall|i: int| 0 <= i < n ==> r@[i] is None,
{
    let mut v: Vec<Option<T>> = Vec::new();
    for i in 0..n
        invariant
            v@.len() == i,
            forall|j: int| 0 <= j < i ==> v@[j] is None,
    {
        v.push(None);
    }
    v
}


/// Distinct nodes get distinct renderpasses.
proof fn lemma_pass_nodes_distinct(g: RenderGraphBuilder, order: Seq<RenderGraphNodeId>, n: nat)
    requires
        n <= order.len(),
        order.no_duplicates(),
    ensures
        pass_nodes(g, order, n).no_duplicates(),
        forall|k: int| 0 <= k < pass_nodes(g, order, n).len() ==> exists|j: int| 0 <= j < n && #[trigger] order[j] == #[trigger] pass_nodes(g, order, n)[k],
    decreases n,
{
    lemma_pass_nodes_from_order(g, order, n);
    if n > 0 {
        lemma_pass_nodes_distinct(g, order, (n - 1) as nat);
        let prev = pass_nodes(g, order, (n - 1) as nat);
        let cur = pass_nodes(g, order, n);
        if cur.len() > prev.len() {
            assert forall|a: int, b: int| 0 <= a < cur.len() && 0 <= b < cur.len() && a != b implies cur[a] != cur[b] by {
                if a < prev.len() && b < prev.len() {
                    assert(cur[a] == prev[a] && cur[b] == prev[b]);
                } else if a < prev.len() {
                    let j = choose|j: int| 0 <= j < n - 1 && #[trigger] order[j] == #[trigger] prev[a];
                    assert(cur[a] == prev[a]);
                    assert(order[j] != order[n - 1]);
                } else {
                    let j = choose|j: int| 0 <= j < n - 1 && #[trigger] order[j] == #[trigger] prev[b];
                    assert(cur[b] == prev[b]);
                    assert(order[j] != order[n - 1]);
                }
            }
        }
    }
}

/// The output images keyed by their views, and which physical images are outputs.
fn separate_output_images(
    outputs: &Vec<crate::graph::RenderGraphOutputImage>,
    usage_to_view: &Vec<Option<PhysicalImageViewId>>,
    image_views: &Vec<RenderGraphImageView>,
    nphysical: usize,
) -> (r: (Vec<Option<RenderGraphPlanOutputImage>>, Vec<bool>))
    requires
        forall|i: int| 0 <= i < outputs@.len() ==> {
            let o = #[trigger] outputs@[i];
            &&& o.usage.0 < usage_to_view@.len()
            &&& usage_to_view@[o.usage.0 as int] is Some
            &&& (usage_to_view@[o.usage.0 as int]->0).0 < image_views@.len()
            &&& image_views@[(usage_to_view@[o.usage.0 as int]->0).0 as int].physical_image == PhysicalImageId(i as usize)
            &&& i < nphysical
        },
    ensures
        r.0@.len() == image_views@.len(),
        forall|i: int| 0 <= i < outputs@.len() ==> {
            let o = #[trigger] outputs@[i];
            r.0@[(usage_to_view@[o.usage.0 as int]->0).0 as int] == Some(RenderGraphPlanOutputImage { output_id: o.output_image_id, dst_image: o.dst_image })
        },
        forall|v: int| 0 <= v < r.0@.len() && (#[trigger] r.0@[v]) is Some ==> (image_views@[v].physical_image.0 as int) < outputs@.len(),
        r.1@.len() == nphysical,
        forall|p: int| 0 <= p < nphysical ==> #[trigger] r.1@[p] == (p < outputs@.len()),
{
    let mut output_images: Vec<Option<RenderGraphPlanOutputImage>> = none_vec(image_views.len());
    let mut is_output: Vec<bool> = Vec::new();
    for p in 0..nphysical
        invariant
            is_output@.len() == p,
            forall|q: int| 0 <= q < p ==> !(#[trigger] is_output@[q]),
    {
        is_output.push(false);
    }
    let nout = outputs.len();
    for oi in 0..nout
        invariant
            nout == outputs@.len(),
            forall|i: int| 0 <= i < outputs@.len() ==> {
                let o = #[trigger] outputs@[i];
                &&& o.usage.0 < usage_to_view@.len()
                &&& usage_to_view@[o.usage.0 as int] is Some
                &&& (usage_to_view@[o.usage.0 as int]->0).0 < image_views@.len()
                &&& image_views@[(usage_to_view@[o.usage.0 as int]->0).0 as int].physical_image == PhysicalImageId(i as usize)
                &&& i < nphysical
            },
            output_images@.len() == image_views@.len(),
            is_output@.len() == nphysical,
            forall|i: int| 0 <= i < oi ==> {
                let o = #[trigger] outputs@[i];
                output_images@[(usage_to_view@[o.usage.0 as int]->0).0 as int] == Some(RenderGraphPlanOutputImage { output_id: o.output_image_id, dst_image: o.dst_image })
            },
            forall|v: int| 0 <= v < output_images@.len() && (#[trigger] output_images@[v]) is Some ==> (image_views@[v].physical_image.0 as int) < oi,
            forall|p: int| 0 <= p < nphysical ==> #[trigger] is_output@[p] == (p < oi),
    {
        let out = &outputs[oi];
        let view = usage_to_view[out.usage.0].unwrap();
        let ghost before = output_images@;
        output_images.set(view.0, Some(RenderGraphPlanOutputImage { output_id: out.output_image_id, dst_image: out.dst_image }));
        let physical = image_views[view.0].physical_image;
        is_output.set(physical.0, true);
        proof {
            assert forall|i: int| 0 <= i < oi + 1 implies {
                let o = #[trigger] outputs@[i];
                output_images@[(usage_to_view@[o.usage.0 as int]->0).0 as int] == Some(RenderGraphPlanOutputImage { output_id: o.output_image_id, dst_image: o.dst_image })
            } by {
                if i < oi {
                    let o = outputs@[i];
                    let vi = (usage_to_view@[o.usage.0 as int]->0).0 as int;
                    assert(image_views@[vi].physical_image == PhysicalImageId(i as usize));
                    assert(vi != view.0);
                }
            }
        }
    }
    (output_images, is_output)
}

/// Each physical image that is not an output, with its specification.
fn intermediate_images_of(is_output: &Vec<bool>, specifications: &Vec<RenderGraphImageSpecification>) -> (r: Vec<Option<RenderGraphImageSpecification>>)
    requires
        is_output@.len() == specifications@.len(),
    ensures
        r@.len() == specifications@.len(),
        forall|p: int| 0 <= p < r@.len() ==> #[trigger] r@[p] == (if is_output@[p] {
            None
        } else {
            Some(specifications@[p])
        }),
{
    let mut intermediate_images: Vec<Option<RenderGraphImageSpecification>> = Vec::new();
    let n = specifications.len();
    for p in 0..n
        invariant
            n == specifications@.len(),
            is_output@.len() == n,
            intermediate_images@.len() == p,
            forall|q: int| 0 <= q < p ==> #[trigger] intermediate_images@[q] == (if is_output@[q] {
                None
            } else {
                Some(specifications@[q])
            }),
    {
        if is_output[p] {
            intermediate_images.push(None);
        } else {
            intermediate_images.push(Some(specifications[p]));
        }
    }
    intermediate_images
}

/// The renderpass of each node, for nodes that have one.
fn renderpass_index_of_nodes(renderpasses: &Vec<RenderGraphOutputPass>, nnodes: usize, Ghost(nodes): Ghost<Seq<RenderGraphNodeId>>) -> (r: Vec<Option<usize>>)
    requires
        nodes.len() == renderpasses@.len(),
        nodes.no_duplicates(),
        forall|k: int| 0 <= k < renderpasses@.len() ==> {
            let rp = #[trigger] renderpasses@[k];
            &&& rp.subpass_nodes@.len() == 1
            &&& rp.subpass_nodes@[0] == nodes[k]
            &&& rp.subpass_nodes@[0].0 < nnodes
        },
    ensures
        r@.len() == nnodes,
        forall|k: int| 0 <= k < renderpasses@.len() ==> r@[(#[trigger] renderpasses@[k]).subpass_nodes@[0].0 as int] == Some(k as usize),
        forall|n: int| 0 <= n < r@.len() && (#[trigger] r@[n]) is Some ==> r@[n]->0 < renderpasses@.len() && renderpasses@[r@[n]->0 as int].subpass_nodes@[0].0 == n,
{
    let mut index: Vec<Option<usize>> = none_vec(nnodes);
    let npasses = renderpasses.len();
    for k in 0..npasses
        invariant
            npasses == renderpasses@.len(),
            nodes.len() == npasses,
            nodes.no_duplicates(),
            forall|j: int| 0 <= j < renderpasses@.len() ==> {
                let rp = #[trigger] renderpasses@[j];
                &&& rp.subpass_nodes@.len() == 1
                &&& rp.subpass_nodes@[0] == nodes[j]
                &&& rp.subpass_nodes@[0].0 < nnodes
            },
            index@.len() == nnodes,
            forall|j: int| 0 <= j < k ==> index@[(#[trigger] renderpasses@[j]).subpass_nodes@[0].0 as int] == Some(j as usize),
            forall|n: int| 0 <= n < index@.len() && (#[trigger] index@[n]) is Some ==> index@[n]->0 < k && renderpasses@[index@[n]->0 as int].subpass_nodes@[0].0 == n,
    {
        let nsub = renderpasses[k].subpass_nodes.len();
        let node = renderpasses[k].subpass_nodes[0];
        index.set(node.0, Some(k));
        proof {
            assert forall|j: int| 0 <= j < k + 1 implies index@[(#[trigger] renderpasses@[j]).subpass_nodes@[0].0 as int] == Some(j as usize) by {
                if j < k {
                    assert(nodes[j] != nodes[k as int]);
                    assert(renderpasses@[j].subpass_nodes@[0].0 != node.0);
                }
            }
        }
    }
    index
}

/// What `build_pass_barriers` gives when it succeeds on `ps`: the external dependencies `deps`
/// and the passes `ps1` with their layouts and barriers filled in.
pub open spec fn pass_barriers_built(
    graph: RenderGraphBuilder,
    ps: Seq<RenderGraphPass>,
    nb: Seq<Option<RenderGraphNodeImageBarriers>>,
    specs: Seq<RenderGraphImageSpecification>,
    u2p: Seq<Option<PhysicalImageId>>,
    deps: Seq<Vec<SubpassDependency>>,
    ps1: Seq<RenderGraphPass>,
) -> bool {
    &&& deps.len() == ps.len()
    &&& ps1.len() == ps.len()
    &&& forall|k: int| 0 <= k < ps.len() ==> {
        let o = #[trigger] outcome_of_pass(graph, ps, nb, specs, u2p, k);
        let p0 = ps[k];
        let p1 = ps1[k];
        &&& deps[k]@ == o.dependencies
        &&& p1.attachments@ == o.attachments
        &&& p1.subpasses == p0.subpasses
        &&& p1.extents == p0.extents
        &&& (o.uses_external_dependency ==> p1.pre_pass_barrier == p0.pre_pass_barrier)
        &&& (!o.uses_external_dependency ==> p1.pre_pass_barrier is Some
            && p1.pre_pass_barrier->0.src_stage == o.src_stage
            && p1.pre_pass_barrier->0.dst_stage == o.dst_stage
            && p1.pre_pass_barrier->0.image_barriers@ == o.image_barriers)
    }
}

/// Planning `graph` for a surface of size `surface` stops at a stage, given what the stages
/// before it produced: the specifications `c0`, the resolved graph `g2` and its specifications
/// `c2`, the virtual images `virt`, the passes `ps1`, the physical images `phys` and the passes
/// `ps2` bound to them, the node barriers `nb`, and the dependencies `deps` and passes `ps3`.
/// A stage stops the plan when resolving is blocked or would overflow, when a reader or a
/// modify would need an image copied, when a node's pass cannot be built, when the physical
/// images cannot be assigned, when a node's barrier names no image, when a barrier would move
/// an image into the undefined layout, or when a pass cannot be turned into a renderpass.
pub open spec fn plan_blocked_by(
    graph: RenderGraphBuilder,
    surface: Extent2D,
    c0: DetermineImageConstraintsResult,
    g2: RenderGraphBuilder,
    c2: DetermineImageConstraintsResult,
    virt: AssignVirtualImagesResult,
    ps1: Seq<RenderGraphPass>,
    phys: AssignPhysicalImagesResult,
    ps2: Seq<RenderGraphPass>,
    nb: Seq<Option<RenderGraphNodeImageBarriers>>,
    deps: Seq<Vec<SubpassDependency>>,
    ps3: Seq<RenderGraphPass>,
) -> bool {
    let order = spec_node_order(graph);
    let u2p = phys.usage_to_physical@;
    let specs = phys.specifications@;
    &&& c0.images@ == spec_determine_image_constraints(graph, order)->Ok_0
    &&& (resolves_blocked(graph, order, c0) || (resolved(graph, order, c0, g2, c2) && (
        spec_assign_virtual(g2, c2, order, order.len()) is Err
        || ((virt.usage_to_virtual@, virt.virtual_image_count as nat) == spec_assign_virtual(g2, c2, order, order.len())->Ok_0 && (
            (exists|k: int| 0 <= k < order.len() && (#[trigger] spec_build_pass(g2, order[k], c2, virt, surface)) is Err)
            || (built_passes(g2, order, c2, virt, surface, ps1) && (
                !physical_images_assignable(g2, c2, virt, ps1)
                || (physical_assignment(g2, c2, virt, ps1, phys, ps2) && (
                    (exists|k: int| 0 <= k < order.len()
                        && (#[trigger] node_barrier_error(g2.nodes@[order[k].0 as int], order[k], u2p)) is Some)
                    || (node_barriers_built(g2, order, u2p, nb) && (
                        (exists|k: int| 0 <= k < ps2.len() && transitions_to_undefined(#[trigger] outcome_of_pass(g2, ps2, nb, specs, u2p, k)))
                        || (pass_barriers_built(g2, ps2, nb, specs, u2p, deps, ps3)
                            && exists|k: int| 0 <= k < ps3.len() && !pass_convertible(#[trigger] ps3[k], barriers_of(nb, pass_node(ps3[k]))))
                    ))
                ))
            ))
        ))
    )))
}

/// Planning `graph` went through every stage, each producing what its contract says of what the
/// stage before produced, and `passes` are the renderpasses made of the last passes, their
/// node barriers and dependencies.
pub open spec fn plan_made_by(
    graph: RenderGraphBuilder,
    surface: Extent2D,
    c0: DetermineImageConstraintsResult,
    g2: RenderGraphBuilder,
    c2: DetermineImageConstraintsResult,
    virt: AssignVirtualImagesResult,
    ps1: Seq<RenderGraphPass>,
    phys: AssignPhysicalImagesResult,
    ps2: Seq<RenderGraphPass>,
    nb: Seq<Option<RenderGraphNodeImageBarriers>>,
    deps: Seq<Vec<SubpassDependency>>,
    ps3: Seq<RenderGraphPass>,
    passes: Seq<RenderGraphOutputPass>,
) -> bool {
    let order = spec_node_order(graph);
    let u2p = phys.usage_to_physical@;
    let specs = phys.specifications@;
    &&& c0.images@ == spec_determine_image_constraints(graph, order)->Ok_0
    &&& resolved(graph, order, c0, g2, c2)
    &&& spec_assign_virtual(g2, c2, order, order.len()) == Ok::<(Seq<Option<VirtualImageId>>, nat), RenderGraphPlanError>((virt.usage_to_virtual@, virt.virtual_image_count as nat))
    &&& built_passes(g2, order, c2, virt, surface, ps1)
    &&& physical_assignment(g2, c2, virt, ps1, phys, ps2)
    &&& node_barriers_built(g2, order, u2p, nb)
    &&& pass_barriers_built(g2, ps2, nb, specs, u2p, deps, ps3)
    &&& passes.len() == ps3.len()
    &&& forall|k: int| 0 <= k < ps3.len() ==> output_pass_matches(
        #[trigger] passes[k],
        g2,
        ps3[k],
        barriers_of(nb, pass_node(ps3[k])),
        deps[k]@,
    )
}

/// Some stage of planning `graph` stops the plan.
pub open spec fn plan_blocked(graph: RenderGraphBuilder, surface: Extent2D) -> bool {
    exists|c0: DetermineImageConstraintsResult, g2: RenderGraphBuilder, c2: DetermineImageConstraintsResult,
        virt: AssignVirtualImagesResult, ps1: Seq<RenderGraphPass>, phys: AssignPhysicalImagesResult,
        ps2: Seq<RenderGraphPass>, nb: Seq<Option<RenderGraphNodeImageBarriers>>,
        deps: Seq<Vec<SubpassDependency>>, ps3: Seq<RenderGraphPass>|
        #[trigger] plan_blocked_by(graph, surface, c0, g2, c2, virt, ps1, phys, ps2, nb, deps, ps3)
}

impl RenderGraphPlan {
    /// Plans a render graph: orders the nodes that contribute to an output, works out every
    /// image's specification, adds the resolves multisampled images need, groups usages into
    /// virtual images and those into physical images, builds a renderpass per node with
    /// attachments, works out the barriers, and separates the output images from the
    /// intermediate ones.
    #[verifier::rlimit(60)]
    pub fn new(graph: RenderGraphBuilder, swapchain_info: &SwapchainSurfaceInfo) -> (r: Result<RenderGraphPlan, RenderGraphPlanError>)
        requires
            graph.wf(),
            has_no_cycle_to_outputs(graph),
            // Every image's specification can be determined
            spec_determine_image_constraints(graph, spec_node_order(graph)) is Ok,
        ensures
            // The plan is made unless a stage stops it
            !plan_blocked(graph, swapchain_info.extents) ==> r is Ok,
            // Each renderpass is made of the pass, barriers and dependencies the stages gave
            r is Ok ==> exists|c0: DetermineImageConstraintsResult, g2: RenderGraphBuilder, c2: DetermineImageConstraintsResult,
                virt: AssignVirtualImagesResult, ps1: Seq<RenderGraphPass>, phys: AssignPhysicalImagesResult,
                ps2: Seq<RenderGraphPass>, nb: Seq<Option<RenderGraphNodeImageBarriers>>,
                deps: Seq<Vec<SubpassDependency>>, ps3: Seq<RenderGraphPass>|
                #[trigger] plan_made_by(graph, swapchain_info.extents, c0, g2, c2, virt, ps1, phys, ps2, nb, deps, ps3, r->Ok_0.passes@),
            r is Ok ==> {
                let plan = r->Ok_0;
                let nout = graph.output_images@.len();
                // Each renderpass runs one node that contributes to an output, and the lookup
                // from node to renderpass agrees with the renderpasses.
                &&& forall|k: int| 0 <= k < plan.passes@.len() ==> {
                    let n = (#[trigger] plan.passes@[k]).subpass_nodes@[0];
                    &&& plan.passes@[k].subpass_nodes@.len() == 1
                    &&& n.0 < graph.nodes@.len()
                    &&& contributes_to_output(graph, n.0 as int)
                    &&& plan.node_to_renderpass_index@[n.0 as int] == Some(k as usize)
                }
                &&& plan.node_to_renderpass_index@.len() == graph.nodes@.len()
                &&& forall|n: int| 0 <= n < plan.node_to_renderpass_index@.len() && (#[trigger] plan.node_to_renderpass_index@[n]) is Some ==> {
                    let k = plan.node_to_renderpass_index@[n]->0;
                    &&& k < plan.passes@.len()
                    &&& plan.passes@[k as int].subpass_nodes@[0].0 == n
                }
                // Output image i is physical image i, written through a view listed as output i
                &&& forall|i: int| 0 <= i < nout ==> {
                    let o = #[trigger] graph.output_images@[i];
                    let v = plan.image_usage_to_view@[o.usage.0 as int];
                    &&& plan.image_usage_to_physical@[o.usage.0 as int] == Some(PhysicalImageId(i as usize))
                    &&& v is Some
                    &&& (v->0).0 < plan.image_views@.len()
                    &&& plan.image_views@[(v->0).0 as int].physical_image == PhysicalImageId(i as usize)
                    &&& (v->0).0 < plan.output_images@.len()
                    &&& plan.output_images@[(v->0).0 as int] == Some(RenderGraphPlanOutputImage { output_id: o.output_image_id, dst_image: o.dst_image })
                }
                // The plan allocates every physical image but the outputs
                &&& plan.intermediate_images@.len() >= nout
                &&& forall|p: int| 0 <= p < plan.intermediate_images@.len() ==> ((#[trigger] plan.intermediate_images@[p]) is None <==> p < nout)
                // Only output views are listed as outputs
                &&& plan.output_images@.len() == plan.image_views@.len()
                &&& forall|v: int| 0 <= v < plan.output_images@.len() && (#[trigger] plan.output_images@[v]) is Some ==> (plan.image_views@[v].physical_image.0 as int) < nout
            },
    {
        let ghost g0 = graph;
        let mut graph = graph;
        let node_execution_order = determine_node_order(&graph);
        let mut image_constraint_results = determine_image_constraints(&graph, &node_execution_order);
        let ghost c0 = image_constraint_results;
        let ghost surface = swapchain_info.extents;
        match insert_resolves(&mut graph, &node_execution_order, &mut image_constraint_results) {
            Ok(()) => {},
            Err(e) => {
                proof {
                    assert(plan_blocked_by(g0, surface, c0, arbitrary(), arbitrary(), arbitrary(), arbitrary(), arbitrary(),
                        arbitrary(), arbitrary(), arbitrary(), arbitrary()));
                }
                return Err(e);
            },
        }
        let ghost g2 = graph;
        let ghost c2 = image_constraint_results;
        let assign_virtual_images_result = match try_assign_virtual_images(&graph, &node_execution_order, &image_constraint_results) {
            Ok(v) => v,
            Err(e) => {
                proof {
                    assert(plan_blocked_by(g0, surface, c0, g2, c2, arbitrary(), arbitrary(), arbitrary(),
                        arbitrary(), arbitrary(), arbitrary(), arbitrary()));
                }
                return Err(e);
            },
        };
        let ghost virt = assign_virtual_images_result;
        let mut passes = match try_build_physical_passes(
            &graph,
            &node_execution_order,
            &image_constraint_results,
            &assign_virtual_images_result,
            swapchain_info.extents,
        ) {
            Ok(p) => p,
            Err(e) => {
                proof {
                    assert(plan_blocked_by(g0, surface, c0, g2, c2, virt, arbitrary(), arbitrary(),
                        arbitrary(), arbitrary(), arbitrary(), arbitrary()));
                }
                return Err(e);
            },
        };
        let ghost order = node_execution_order@;
        let ghost pnodes = pass_nodes(graph, order, order.len());
        proof {
            lemma_pass_nodes_from_order(graph, order, order.len());
            assert(passes_wf(graph, passes@)) by {
                assert forall|k: int| 0 <= k < passes@.len() implies (#[trigger] passes@[k]).subpasses@.len() == 1 && passes@[k].subpasses@[0].node.0 < graph.nodes@.len() by {
                    let j = choose|j: int| 0 <= j < order.len() && #[trigger] order[j] == pnodes[k];
                    assert(order[j].0 < graph.nodes@.len());
                }
            }
            assert(virtual_ids_below_count(assign_virtual_images_result));
            assert(virtual_images_share_specs(image_constraint_results, assign_virtual_images_result));
            assert(attachments_assigned(assign_virtual_images_result, passes@));
        }
        let ghost passes0 = passes@;
        let assign_physical_images_result = match assign_physical_images(
            &graph,
            &image_constraint_results,
            &assign_virtual_images_result,
            &mut passes,
        ) {
            Ok(res) => res,
            Err(e) => {
                proof {
                    assert(plan_blocked_by(g0, surface, c0, g2, c2, virt, passes0, arbitrary(),
                        arbitrary(), arbitrary(), arbitrary(), arbitrary()));
                }
                return Err(e);
            },
        };
        let ghost phys = assign_physical_images_result;
        let ghost passes_bound = passes@;
        let node_barriers = match build_node_barriers(&graph, &node_execution_order, &assign_physical_images_result.usage_to_physical) {
            Ok(b) => b,
            Err(e) => {
                proof {
                    assert(plan_blocked_by(g0, surface, c0, g2, c2, virt, passes0, phys,
                        passes_bound, arbitrary(), arbitrary(), arbitrary()));
                }
                return Err(e);
            },
        };
        let ghost u2p = assign_physical_images_result.usage_to_physical@;
        let ghost specs = assign_physical_images_result.specifications@;
        let ghost nb = node_barriers@;
        proof {
            // Every assigned physical image exists
            assert forall|p: PhysicalImageId| #[trigger] is_assigned(u2p, p) implies p.0 < specs.len() by {
                let u = choose|u: int| 0 <= u < u2p.len() && u2p[u] == Some(p);
                let map = assign_virtual_images_result.usage_to_virtual@;
                assert(u2p[u] == (if map[u] is Some { assign_physical_images_result.virtual_to_physical@[(map[u]->0).0 as int] } else { None }));
            }
            assert(passes_ready(passes@, nb, specs.len())) by {
                assert forall|k: int| 0 <= k < passes@.len() implies {
                    let p = #[trigger] passes@[k];
                    &&& p.subpasses@.len() == 1
                    &&& pass_node(p).0 < nb.len()
                    &&& nb[pass_node(p).0 as int] is Some
                    &&& barriers_in_range(barriers_of(nb, pass_node(p)), specs.len())
                    &&& all_attachments_placed(p.attachments@)
                } by {
                    let p = passes@[k];
                    assert(p.subpasses == passes0[k].subpasses);
                    let j = choose|j: int| 0 <= j < order.len() && #[trigger] order[j] == pnodes[k];
                    let id = order[j].0 as int;
                    assert(nb[id] is Some);
                    let list = barriers_of(nb, pass_node(p));
                    assert(all_assigned(list, u2p));
                    assert forall|i: int| 0 <= i < list.len() implies (#[trigger] list[i]).image.0 < specs.len() by {
                        assert(is_assigned(u2p, list[i].image));
                    }
                    assert forall|a: int| 0 <= a < p.attachments@.len() implies (#[trigger] p.attachments@[a]).image is Some by {
                        let a0 = passes0[k].attachments@[a];
                        assert(a0.usage.0 < assign_virtual_images_result.usage_to_virtual@.len());
                        assert(assign_virtual_images_result.usage_to_virtual@[a0.usage.0 as int] == Some(a0.virtual_image));
                        assert(u2p[a0.usage.0 as int] is Some);
                    }
                }
            }
        }
        let ghost passes1 = passes@;
        let subpass_dependencies = match build_pass_barriers(
            &graph,
            &node_execution_order,
            &image_constraint_results,
            &assign_physical_images_result,
            &node_barriers,
            &mut passes,
        ) {
            Ok(d) => d,
            Err(e) => {
                proof {
                    assert(plan_blocked_by(g0, surface, c0, g2, c2, virt, passes0, phys,
                        passes_bound, nb, arbitrary(), arbitrary()));
                }
                return Err(e);
            },
        };
        proof {
            assert forall|k: int| 0 <= k < passes@.len() implies {
                let p = #[trigger] passes@[k];
                &&& p.subpasses@.len() == 1
                &&& pass_node(p).0 < graph.nodes@.len()
                &&& pass_node(p).0 < node_barriers@.len()
                &&& node_barriers@[pass_node(p).0 as int] is Some
                &&& pass_node(p) == pnodes[k]
            } by {
                let _o = outcome_of_pass(graph, passes1, nb, specs, u2p, k);
                assert(passes@[k].subpasses == passes1[k].subpasses);
                assert(passes1[k].subpasses == passes0[k].subpasses);
                let j = choose|j: int| 0 <= j < order.len() && #[trigger] order[j] == pnodes[k];
                assert(order[j].0 < graph.nodes@.len());
            }
        }
        let ghost final_passes = passes@;
        proof {
            assert(pass_barriers_built(g2, passes1, nb, specs, u2p, subpass_dependencies@, final_passes));
        }
        let renderpasses = match create_output_passes(&graph, passes, &node_barriers, &subpass_dependencies) {
            Ok(r) => r,
            Err(e) => {
                proof {
                    assert(plan_blocked_by(g0, surface, c0, g2, c2, virt, passes0, phys,
                        passes_bound, nb, subpass_dependencies@, final_passes));
                }
                return Err(e);
            },
        };
        proof {
            assert(plan_made_by(g0, surface, c0, g2, c2, virt, passes0, phys, passes_bound, nb,
                subpass_dependencies@, final_passes, renderpasses@));
        }

        // Separate the output images from the intermediate images
        proof {
            assert forall|i: int| 0 <= i < graph.output_images@.len() implies {
                let o = #[trigger] graph.output_images@[i];
                let u2v = assign_physical_images_result.usage_to_image_view@;
                &&& o.usage.0 < u2v.len()
                &&& u2v[o.usage.0 as int] is Some
                &&& (u2v[o.usage.0 as int]->0).0 < assign_physical_images_result.image_views@.len()
                &&& assign_physical_images_result.image_views@[(u2v[o.usage.0 as int]->0).0 as int].physical_image == PhysicalImageId(i as usize)
                &&& i < specs.len()
            } by {
                let o = graph.output_images@[i];
                let map = assign_virtual_images_result.usage_to_virtual@;
                assert(map[o.usage.0 as int] is Some);
                assert(u2p[o.usage.0 as int] is Some);
            }
        }
        let (output_images, is_output) = separate_output_images(
            &graph.output_images,
            &assign_physical_images_result.usage_to_image_view,
            &assign_physical_images_result.image_views,
            assign_physical_images_result.specifications.len(),
        );
        let intermediate_images = intermediate_images_of(&is_output, &assign_physical_images_result.specifications);

        // The renderpass of each node; culled nodes have none.
        proof {
            lemma_pass_nodes_distinct(graph, order, order.len());
            assert forall|k: int| 0 <= k < renderpasses@.len() implies {
                let rp = #[trigger] renderpasses@[k];
                &&& rp.subpass_nodes@.len() == 1
                &&& rp.subpass_nodes@[0] == pnodes[k]
                &&& rp.subpass_nodes@[0].0 < graph.nodes@.len()
            } by {
                assert(final_passes[k].subpasses@[0].node == pnodes[k]);
            }
        }
        let node_to_renderpass_index = renderpass_index_of_nodes(&renderpasses, graph.nodes.len(), Ghost(pnodes));

        Ok(RenderGraphPlan {
            passes: renderpasses,
            output_images,
            intermediate_images,
            image_views: assign_physical_images_result.image_views,
            node_to_renderpass_index,
            image_usage_to_physical: assign_physical_images_result.usage_to_physical,
            image_usage_to_view: assign_physical_images_result.usage_to_image_view,
        })
    }
}

} // verus!
