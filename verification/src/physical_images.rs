use vstd::prelude::*;
use crate::image_spec::{RenderGraphImageSpecification, lemma_has_flags_order, lemma_merged_has_flags, spec_flag_bit, lemma_merged_flag_bit, lemma_has_flags_bit};
use crate::graph::{
    RenderGraphBuilder, RenderGraphNode, RenderGraphImageUsageId, VirtualImageId, PhysicalImageId,
    PhysicalImageViewId, ImageSubresourceRange,
};
use crate::constraints::DetermineImageConstraintsResult;
use crate::virtual_images::AssignVirtualImagesResult;
use crate::passes::RenderGraphPass;
use crate::plan_error::RenderGraphPlanError;

verus! {

/// A view of a physical image.
#[derive(Clone, Copy, Debug, PartialEq, Eq, Structural)]
pub struct RenderGraphImageView {
    pub physical_image: PhysicalImageId,
    pub subresource_range: ImageSubresourceRange,
    pub view_type: i32,
}

/// The physical images and views the plan needs, and which usage and virtual image maps to
/// which. Lookups are indexed by usage id and by virtual image id.
pub struct AssignPhysicalImagesResult {
    pub usage_to_physical: Vec<Option<PhysicalImageId>>,
    pub usage_to_image_view: Vec<Option<PhysicalImageViewId>>,
    pub image_views: Vec<RenderGraphImageView>,
    pub virtual_to_physical: Vec<Option<PhysicalImageId>>,
    pub specifications: Vec<RenderGraphImageSpecification>,
}

/// The span of passes a virtual image is used in and the specification it needs.
pub struct PhysicalImageReuseRequirements {
    pub virtual_id: VirtualImageId,
    pub specification: RenderGraphImageSpecification,
    pub first_node_pass_index: usize,
    pub last_node_pass_index: usize,
}

struct PhysicalImage {
    specification: RenderGraphImageSpecification,
    last_node_pass_index: usize,
    can_be_reused: bool,
}

/// Usage `u` cannot be placed in a physical image: it has no virtual image or no
/// specification.
pub open spec fn usage_unplaceable(virt: AssignVirtualImagesResult, res: DetermineImageConstraintsResult, u: RenderGraphImageUsageId) -> bool {
    ||| u.0 >= virt.usage_to_virtual@.len()
    ||| virt.usage_to_virtual@[u.0 as int] is None
    ||| res.spec_specification(u) is None
}

/// Every lookup entry that `l1` has and `l0` lacks belongs to the virtual image of a usage of
/// `node`.
pub open spec fn new_entries_used(
    virt: AssignVirtualImagesResult,
    node: RenderGraphNode,
    l0: Seq<Option<usize>>,
    l1: Seq<Option<usize>>,
) -> bool {
    forall|v: int| 0 <= v < l0.len() && l0[v] is None && (#[trigger] l1[v]) is Some ==> exists|u: RenderGraphImageUsageId|
        #[trigger] node_uses(node, u) && u.0 < virt.usage_to_virtual@.len() && virt.usage_to_virtual@[u.0 as int] == Some(VirtualImageId(v as usize))
}

proof fn lemma_new_entries_step(
    virt: AssignVirtualImagesResult,
    node: RenderGraphNode,
    l0: Seq<Option<usize>>,
    la: Seq<Option<usize>>,
    lb: Seq<Option<usize>>,
    usage: RenderGraphImageUsageId,
)
    requires
        new_entries_used(virt, node, l0, la),
        l0.len() == la.len(),
        la.len() == lb.len(),
        forall|v: int| 0 <= v < la.len() && (#[trigger] la[v]) is Some ==> lb[v] == la[v],
        forall|v: int| 0 <= v < la.len() && la[v] is None && (#[trigger] lb[v]) is Some
            ==> usage.0 < virt.usage_to_virtual@.len() && virt.usage_to_virtual@[usage.0 as int] == Some(VirtualImageId(v as usize)),
        node_uses(node, usage),
    ensures
        new_entries_used(virt, node, l0, lb),
{
    assert forall|v: int| 0 <= v < l0.len() && l0[v] is None && (#[trigger] lb[v]) is Some implies exists|u: RenderGraphImageUsageId|
        #[trigger] node_uses(node, u) && u.0 < virt.usage_to_virtual@.len() && virt.usage_to_virtual@[u.0 as int] == Some(VirtualImageId(v as usize)) by {
        if la[v] is Some {
            assert(la[v] is Some);
        } else {
            assert(node_uses(node, usage));
        }
    }
}

/// The node uses usage `u` through a modify, read, create or sampled image.
pub open spec fn node_uses(node: RenderGraphNode, u: RenderGraphImageUsageId) -> bool {
    ||| exists|i: int| 0 <= i < node.image_modifies@.len() && (#[trigger] node.image_modifies@[i]).input == u
    ||| exists|i: int| 0 <= i < node.image_modifies@.len() && (#[trigger] node.image_modifies@[i]).output == u
    ||| exists|i: int| 0 <= i < node.image_reads@.len() && (#[trigger] node.image_reads@[i]).image == u
    ||| exists|i: int| 0 <= i < node.image_creates@.len() && (#[trigger] node.image_creates@[i]).image == u
    ||| exists|i: int| 0 <= i < node.sampled_images@.len() && #[trigger] node.sampled_images@[i] == u
}

/// Pass `k` uses virtual image `v`: the node of its subpass uses a usage mapped to `v`.
pub open spec fn pass_uses_virtual(
    g: RenderGraphBuilder,
    virt: AssignVirtualImagesResult,
    passes: Seq<RenderGraphPass>,
    k: int,
    v: VirtualImageId,
) -> bool {
    exists|u: RenderGraphImageUsageId|
        0 <= k < passes.len() && passes[k].subpasses@.len() > 0 && #[trigger] node_uses(g.spec_node(passes[k].subpasses@[0].node), u)
            && u.0 < virt.usage_to_virtual@.len() && virt.usage_to_virtual@[u.0 as int] == Some(v)
}

/// Usage `u` has been accounted for in pass `k`: its virtual image has requirements whose
/// span covers `k`.
pub open spec fn covered(
    virt: AssignVirtualImagesResult,
    reqs: Seq<PhysicalImageReuseRequirements>,
    lookup: Seq<Option<usize>>,
    u: RenderGraphImageUsageId,
    k: int,
) -> bool {
    &&& u.0 < virt.usage_to_virtual@.len()
    &&& virt.usage_to_virtual@[u.0 as int] is Some
    &&& {
        let v = virt.usage_to_virtual@[u.0 as int]->0;
        &&& v.0 < lookup.len()
        &&& lookup[v.0 as int] is Some
        &&& (lookup[v.0 as int]->0) < reqs.len()
        &&& reqs[lookup[v.0 as int]->0 as int].first_node_pass_index <= k <= reqs[lookup[v.0 as int]->0 as int].last_node_pass_index
    }
}

/// The requirement list and its lookup agree, and every span ends at or before pass `cur`.
pub open spec fn reqs_wf(
    res: DetermineImageConstraintsResult,
    virt: AssignVirtualImagesResult,
    reqs: Seq<PhysicalImageReuseRequirements>,
    lookup: Seq<Option<usize>>,
    cur: int,
) -> bool {
    &&& lookup.len() == virt.virtual_image_count
    &&& forall|v: int| 0 <= v < lookup.len() && (#[trigger] lookup[v]) is Some ==> (lookup[v]->0) < reqs.len() && reqs[lookup[v]->0 as int].virtual_id.0 == v
    &&& forall|r: int| 0 <= r < reqs.len() ==> {
        let req = #[trigger] reqs[r];
        &&& req.virtual_id.0 < lookup.len()
        &&& lookup[req.virtual_id.0 as int] == Some(r as usize)
        &&& req.first_node_pass_index <= req.last_node_pass_index <= cur
        &&& exists|u: RenderGraphImageUsageId| u.0 < virt.usage_to_virtual@.len() && #[trigger] virt.usage_to_virtual@[u.0 as int] == Some(req.virtual_id) && res.spec_specification(u) == Some(req.specification)
    }
}

proof fn lemma_covered_stable(
    virt: AssignVirtualImagesResult,
    reqs1: Seq<PhysicalImageReuseRequirements>,
    lookup1: Seq<Option<usize>>,
    reqs2: Seq<PhysicalImageReuseRequirements>,
    lookup2: Seq<Option<usize>>,
    u: RenderGraphImageUsageId,
    k: int,
)
    requires
        covered(virt, reqs1, lookup1, u, k),
        lookup1.len() == lookup2.len(),
        reqs1.len() <= reqs2.len(),
        forall|v: int| 0 <= v < lookup1.len() && (#[trigger] lookup1[v]) is Some ==> lookup2[v] == lookup1[v],
        forall|r: int| 0 <= r < reqs1.len() ==> (#[trigger] reqs2[r]).first_node_pass_index == reqs1[r].first_node_pass_index
            && reqs2[r].last_node_pass_index >= reqs1[r].last_node_pass_index,
    ensures
        covered(virt, reqs2, lookup2, u, k),
{
    let v = virt.usage_to_virtual@[u.0 as int]->0;
    let r = lookup1[v.0 as int]->0;
    assert(reqs2[r as int].first_node_pass_index == reqs1[r as int].first_node_pass_index);
}

/// Records that `usage` is used in pass `pass_index`: its virtual image's span is extended to
/// the pass, or a new span starts there.
fn add_or_modify_reuse_image_requirements(
    virtual_images: &AssignVirtualImagesResult,
    image_constraints: &DetermineImageConstraintsResult,
    pass_index: usize,
    usage: RenderGraphImageUsageId,
    reuse_requirements: &mut Vec<PhysicalImageReuseRequirements>,
    reuse_requirements_lookup: &mut Vec<Option<usize>>,
) -> (r: Result<(), RenderGraphPlanError>)
    requires
        reqs_wf(*image_constraints, *virtual_images, old(reuse_requirements)@, old(reuse_requirements_lookup)@, pass_index as int),
        forall|u: int| 0 <= u < virtual_images.usage_to_virtual@.len() && (#[trigger] virtual_images.usage_to_virtual@[u]) is Some
            ==> (virtual_images.usage_to_virtual@[u]->0).0 < virtual_images.virtual_image_count,
    ensures
        reqs_wf(*image_constraints, *virtual_images, final(reuse_requirements)@, final(reuse_requirements_lookup)@, pass_index as int),
        final(reuse_requirements_lookup)@.len() == old(reuse_requirements_lookup)@.len(),
        old(reuse_requirements)@.len() <= final(reuse_requirements)@.len(),
        forall|v: int| 0 <= v < old(reuse_requirements_lookup)@.len() && (#[trigger] old(reuse_requirements_lookup)@[v]) is Some ==> final(reuse_requirements_lookup)@[v] == old(reuse_requirements_lookup)@[v],
        forall|i: int| 0 <= i < old(reuse_requirements)@.len() ==> (#[trigger] final(reuse_requirements)@[i]).first_node_pass_index == old(reuse_requirements)@[i].first_node_pass_index
            && final(reuse_requirements)@[i].last_node_pass_index >= old(reuse_requirements)@[i].last_node_pass_index,
        r is Ok ==> covered(*virtual_images, final(reuse_requirements)@, final(reuse_requirements_lookup)@, usage, pass_index as int),
        r is Err ==> usage_unplaceable(*virtual_images, *image_constraints, usage),
        forall|v: int| 0 <= v < old(reuse_requirements_lookup)@.len() && old(reuse_requirements_lookup)@[v] is None && (#[trigger] final(reuse_requirements_lookup)@[v]) is Some
            ==> usage.0 < virtual_images.usage_to_virtual@.len() && virtual_images.usage_to_virtual@[usage.0 as int] == Some(VirtualImageId(v as usize)),
{
    if usage.0 >= virtual_images.usage_to_virtual.len() {
        return Err(RenderGraphPlanError::UnassignedImage(usage));
    }
    let virtual_id = match virtual_images.usage_to_virtual[usage.0] {
        Some(v) => v,
        None => {
            return Err(RenderGraphPlanError::UnassignedImage(usage));
        },
    };
    let ghost reqs0 = reuse_requirements@;
    let index = match reuse_requirements_lookup[virtual_id.0] {
        Some(i) => i,
        None => {
            let specification = match image_constraints.specification(usage) {
                Some(s) => s,
                None => {
                    return Err(RenderGraphPlanError::MissingSpecification(usage));
                },
            };
            let i = reuse_requirements.len();
            reuse_requirements.push(
                PhysicalImageReuseRequirements {
                    virtual_id,
                    first_node_pass_index: pass_index,
                    last_node_pass_index: pass_index,
                    specification,
                },
            );
            reuse_requirements_lookup.set(virtual_id.0, Some(i));
            proof {
                let reqs = reuse_requirements@;
                let lookup = reuse_requirements_lookup@;
                assert forall|r: int| 0 <= r < reqs.len() implies {
                    let req = #[trigger] reqs[r];
                    &&& req.virtual_id.0 < lookup.len()
                    &&& lookup[req.virtual_id.0 as int] == Some(r as usize)
                    &&& req.first_node_pass_index <= req.last_node_pass_index <= pass_index
                    &&& exists|u: RenderGraphImageUsageId| u.0 < virtual_images.usage_to_virtual@.len() && #[trigger] virtual_images.usage_to_virtual@[u.0 as int] == Some(req.virtual_id) && image_constraints.spec_specification(u) == Some(req.specification)
                } by {
                    if r < reqs0.len() {
                        assert(reqs[r] == reqs0[r]);
                    } else {
                        assert(virtual_images.usage_to_virtual@[usage.0 as int] == Some(virtual_id));
                    }
                }
            }
            i
        },
    };
    let mut req = PhysicalImageReuseRequirements {
        virtual_id: reuse_requirements[index].virtual_id,
        specification: reuse_requirements[index].specification,
        first_node_pass_index: reuse_requirements[index].first_node_pass_index,
        last_node_pass_index: pass_index,
    };
    let ghost reqs1 = reuse_requirements@;
    reuse_requirements.set(index, req);
    proof {
        let reqs = reuse_requirements@;
        let lookup = reuse_requirements_lookup@;
        assert forall|r: int| 0 <= r < reqs.len() implies {
            let req = #[trigger] reqs[r];
            &&& req.virtual_id.0 < lookup.len()
            &&& lookup[req.virtual_id.0 as int] == Some(r as usize)
            &&& req.first_node_pass_index <= req.last_node_pass_index <= pass_index
            &&& exists|u: RenderGraphImageUsageId| u.0 < virtual_images.usage_to_virtual@.len() && #[trigger] virtual_images.usage_to_virtual@[u.0 as int] == Some(req.virtual_id) && image_constraints.spec_specification(u) == Some(req.specification)
        } by {
            assert(reqs1[r].virtual_id == reqs[r].virtual_id);
            assert(reqs1[r].specification == reqs[r].specification);
        }
        assert forall|i: int| 0 <= i < reqs0.len() implies (#[trigger] reqs[i]).first_node_pass_index == reqs0[i].first_node_pass_index
            && reqs[i].last_node_pass_index >= reqs0[i].last_node_pass_index by {
            assert(reqs1[i] == reqs0[i]);
        }
    }
    Ok(())
}


/// `reqs2`/`lookup2` only extend `reqs1`/`lookup1`: existing spans keep their start and can
/// only grow.
pub open spec fn reqs_extend(
    reqs1: Seq<PhysicalImageReuseRequirements>,
    lookup1: Seq<Option<usize>>,
    reqs2: Seq<PhysicalImageReuseRequirements>,
    lookup2: Seq<Option<usize>>,
) -> bool {
    &&& lookup1.len() == lookup2.len()
    &&& reqs1.len() <= reqs2.len()
    &&& forall|v: int| 0 <= v < lookup1.len() && (#[trigger] lookup1[v]) is Some ==> lookup2[v] == lookup1[v]
    &&& forall|r: int| 0 <= r < reqs1.len() ==> (#[trigger] reqs2[r]).first_node_pass_index == reqs1[r].first_node_pass_index
        && reqs2[r].last_node_pass_index >= reqs1[r].last_node_pass_index
}

proof fn lemma_reqs_extend_trans(
    r1: Seq<PhysicalImageReuseRequirements>, l1: Seq<Option<usize>>,
    r2: Seq<PhysicalImageReuseRequirements>, l2: Seq<Option<usize>>,
    r3: Seq<PhysicalImageReuseRequirements>, l3: Seq<Option<usize>>,
)
    requires
        reqs_extend(r1, l1, r2, l2),
        reqs_extend(r2, l2, r3, l3),
    ensures
        reqs_extend(r1, l1, r3, l3),
{
    assert forall|v: int| 0 <= v < l1.len() && (#[trigger] l1[v]) is Some implies l3[v] == l1[v] by {
        assert(l2[v] is Some);
    }
    assert forall|r: int| 0 <= r < r1.len() implies (#[trigger] r3[r]).first_node_pass_index == r1[r].first_node_pass_index
        && r3[r].last_node_pass_index >= r1[r].last_node_pass_index by {
        assert(r2[r].first_node_pass_index == r1[r].first_node_pass_index);
    }
}

proof fn lemma_reqs_wf_later(
    res: DetermineImageConstraintsResult,
    virt: AssignVirtualImagesResult,
    reqs: Seq<PhysicalImageReuseRequirements>,
    lookup: Seq<Option<usize>>,
    cur: int,
    later: int,
)
    requires
        reqs_wf(res, virt, reqs, lookup, cur),
        cur <= later,
    ensures
        reqs_wf(res, virt, reqs, lookup, later),
{
}

/// Accounts for every usage of `node` in pass `pass_index`.
#[verifier::rlimit(40)]
fn cover_node_usages(
    graph: &RenderGraphBuilder,
    virtual_images: &AssignVirtualImagesResult,
    image_constraints: &DetermineImageConstraintsResult,
    pass_index: usize,
    node: &RenderGraphNode,
    reuse_requirements: &mut Vec<PhysicalImageReuseRequirements>,
    reuse_requirements_lookup: &mut Vec<Option<usize>>,
) -> (r: Result<(), RenderGraphPlanError>)
    requires
        reqs_wf(*image_constraints, *virtual_images, old(reuse_requirements)@, old(reuse_requirements_lookup)@, pass_index as int),
        forall|u: int| 0 <= u < virtual_images.usage_to_virtual@.len() && (#[trigger] virtual_images.usage_to_virtual@[u]) is Some
            ==> (virtual_images.usage_to_virtual@[u]->0).0 < virtual_images.virtual_image_count,
    ensures
        reqs_wf(*image_constraints, *virtual_images, final(reuse_requirements)@, final(reuse_requirements_lookup)@, pass_index as int),
        r is Ok ==> reqs_extend(old(reuse_requirements)@, old(reuse_requirements_lookup)@, final(reuse_requirements)@, final(reuse_requirements_lookup)@),
        r is Ok ==> forall|u: RenderGraphImageUsageId| #[trigger] node_uses(*node, u) ==> covered(*virtual_images, final(reuse_requirements)@, final(reuse_requirements_lookup)@, u, pass_index as int),
        r is Ok ==> new_entries_used(*virtual_images, *node, old(reuse_requirements_lookup)@, final(reuse_requirements_lookup)@),
        r is Err ==> exists|u: RenderGraphImageUsageId| #[trigger] node_uses(*node, u) && usage_unplaceable(*virtual_images, *image_constraints, u),
{
    let ghost r0 = reuse_requirements@;
    let ghost l0 = reuse_requirements_lookup@;
    let nm = node.image_modifies.len();
    for i in 0..nm
        invariant
            nm == node.image_modifies@.len(),
            reqs_wf(*image_constraints, *virtual_images, reuse_requirements@, reuse_requirements_lookup@, pass_index as int),
            forall|u: int| 0 <= u < virtual_images.usage_to_virtual@.len() && (#[trigger] virtual_images.usage_to_virtual@[u]) is Some
                ==> (virtual_images.usage_to_virtual@[u]->0).0 < virtual_images.virtual_image_count,
            reqs_extend(r0, l0, reuse_requirements@, reuse_requirements_lookup@),
            new_entries_used(*virtual_images, *node, l0, reuse_requirements_lookup@),
            forall|j: int| 0 <= j < i ==> covered(*virtual_images, reuse_requirements@, reuse_requirements_lookup@, (#[trigger] node.image_modifies@[j]).input, pass_index as int)
                && covered(*virtual_images, reuse_requirements@, reuse_requirements_lookup@, node.image_modifies@[j].output, pass_index as int),
    {
        let ghost ra = reuse_requirements@;
        let ghost la = reuse_requirements_lookup@;
        proof {
            assert(node_uses(*node, node.image_modifies@[i as int].input));
            assert(node_uses(*node, node.image_modifies@[i as int].output));
        }
        match add_or_modify_reuse_image_requirements(virtual_images, image_constraints, pass_index, node.image_modifies[i].input, reuse_requirements, reuse_requirements_lookup) {
            Ok(_) => {},
            Err(e) => { return Err(e); },
        }
        let ghost rb = reuse_requirements@;
        let ghost lb = reuse_requirements_lookup@;
        proof {
            lemma_new_entries_step(*virtual_images, *node, l0, la, lb, node.image_modifies@[i as int].input);
        }
        match add_or_modify_reuse_image_requirements(virtual_images, image_constraints, pass_index, node.image_modifies[i].output, reuse_requirements, reuse_requirements_lookup) {
            Ok(_) => {},
            Err(e) => { return Err(e); },
        }
        proof {
            lemma_new_entries_step(*virtual_images, *node, l0, lb, reuse_requirements_lookup@, node.image_modifies@[i as int].output);
            lemma_reqs_extend_trans(ra, la, rb, lb, reuse_requirements@, reuse_requirements_lookup@);
            lemma_reqs_extend_trans(r0, l0, ra, la, reuse_requirements@, reuse_requirements_lookup@);
            lemma_covered_stable(*virtual_images, rb, lb, reuse_requirements@, reuse_requirements_lookup@, node.image_modifies@[i as int].input, pass_index as int);
            assert forall|j: int| 0 <= j < i + 1 implies covered(*virtual_images, reuse_requirements@, reuse_requirements_lookup@, (#[trigger] node.image_modifies@[j]).input, pass_index as int)
                && covered(*virtual_images, reuse_requirements@, reuse_requirements_lookup@, node.image_modifies@[j].output, pass_index as int) by {
                if j < i {
                    lemma_covered_stable(*virtual_images, ra, la, reuse_requirements@, reuse_requirements_lookup@, node.image_modifies@[j].input, pass_index as int);
                    lemma_covered_stable(*virtual_images, ra, la, reuse_requirements@, reuse_requirements_lookup@, node.image_modifies@[j].output, pass_index as int);
                }
            }
        }
    }
    let ghost r1 = reuse_requirements@;
    let ghost l1 = reuse_requirements_lookup@;
    let nr = node.image_reads.len();
    for i in 0..nr
        invariant
            nr == node.image_reads@.len(),
            reqs_wf(*image_constraints, *virtual_images, reuse_requirements@, reuse_requirements_lookup@, pass_index as int),
            forall|u: int| 0 <= u < virtual_images.usage_to_virtual@.len() && (#[trigger] virtual_images.usage_to_virtual@[u]) is Some
                ==> (virtual_images.usage_to_virtual@[u]->0).0 < virtual_images.virtual_image_count,
            reqs_extend(r0, l0, reuse_requirements@, reuse_requirements_lookup@),
            reqs_extend(r1, l1, reuse_requirements@, reuse_requirements_lookup@),
            new_entries_used(*virtual_images, *node, l0, reuse_requirements_lookup@),
            forall|j: int| 0 <= j < i ==> covered(*virtual_images, reuse_requirements@, reuse_requirements_lookup@, (#[trigger] node.image_reads@[j]).image, pass_index as int),
    {
        let ghost ra = reuse_requirements@;
        let ghost la = reuse_requirements_lookup@;
        proof {
            assert(node_uses(*node, node.image_reads@[i as int].image));
        }
        match add_or_modify_reuse_image_requirements(virtual_images, image_constraints, pass_index, node.image_reads[i].image, reuse_requirements, reuse_requirements_lookup) {
            Ok(_) => {},
            Err(e) => { return Err(e); },
        }
        proof {
            lemma_new_entries_step(*virtual_images, *node, l0, la, reuse_requirements_lookup@, node.image_reads@[i as int].image);
            lemma_reqs_extend_trans(r0, l0, ra, la, reuse_requirements@, reuse_requirements_lookup@);
            lemma_reqs_extend_trans(r1, l1, ra, la, reuse_requirements@, reuse_requirements_lookup@);
            assert forall|j: int| 0 <= j < i + 1 implies covered(*virtual_images, reuse_requirements@, reuse_requirements_lookup@, (#[trigger] node.image_reads@[j]).image, pass_index as int) by {
                if j < i {
                    lemma_covered_stable(*virtual_images, ra, la, reuse_requirements@, reuse_requirements_lookup@, node.image_reads@[j].image, pass_index as int);
                }
            }
        }
    }
    let ghost r2 = reuse_requirements@;
    let ghost l2 = reuse_requirements_lookup@;
    let nc = node.image_creates.len();
    for i in 0..nc
        invariant
            nc == node.image_creates@.len(),
            reqs_wf(*image_constraints, *virtual_images, reuse_requirements@, reuse_requirements_lookup@, pass_index as int),
            forall|u: int| 0 <= u < virtual_images.usage_to_virtual@.len() && (#[trigger] virtual_images.usage_to_virtual@[u]) is Some
                ==> (virtual_images.usage_to_virtual@[u]->0).0 < virtual_images.virtual_image_count,
            reqs_extend(r0, l0, reuse_requirements@, reuse_requirements_lookup@),
            reqs_extend(r2, l2, reuse_requirements@, reuse_requirements_lookup@),
            new_entries_used(*virtual_images, *node, l0, reuse_requirements_lookup@),
            forall|j: int| 0 <= j < i ==> covered(*virtual_images, reuse_requirements@, reuse_requirements_lookup@, (#[trigger] node.image_creates@[j]).image, pass_index as int),
    {
        let ghost ra = reuse_requirements@;
        let ghost la = reuse_requirements_lookup@;
        proof {
            assert(node_uses(*node, node.image_creates@[i as int].image));
        }
        match add_or_modify_reuse_image_requirements(virtual_images, image_constraints, pass_index, node.image_creates[i].image, reuse_requirements, reuse_requirements_lookup) {
            Ok(_) => {},
            Err(e) => { return Err(e); },
        }
        proof {
            lemma_new_entries_step(*virtual_images, *node, l0, la, reuse_requirements_lookup@, node.image_creates@[i as int].image);
            lemma_reqs_extend_trans(r0, l0, ra, la, reuse_requirements@, reuse_requirements_lookup@);
            lemma_reqs_extend_trans(r2, l2, ra, la, reuse_requirements@, reuse_requirements_lookup@);
            assert forall|j: int| 0 <= j < i + 1 implies covered(*virtual_images, reuse_requirements@, reuse_requirements_lookup@, (#[trigger] node.image_creates@[j]).image, pass_index as int) by {
                if j < i {
                    lemma_covered_stable(*virtual_images, ra, la, reuse_requirements@, reuse_requirements_lookup@, node.image_creates@[j].image, pass_index as int);
                }
            }
        }
    }
    let ghost r3 = reuse_requirements@;
    let ghost l3 = reuse_requirements_lookup@;
    let ns = node.sampled_images.len();
    for i in 0..ns
        invariant
            ns == node.sampled_images@.len(),
            reqs_wf(*image_constraints, *virtual_images, reuse_requirements@, reuse_requirements_lookup@, pass_index as int),
            forall|u: int| 0 <= u < virtual_images.usage_to_virtual@.len() && (#[trigger] virtual_images.usage_to_virtual@[u]) is Some
                ==> (virtual_images.usage_to_virtual@[u]->0).0 < virtual_images.virtual_image_count,
            reqs_extend(r0, l0, reuse_requirements@, reuse_requirements_lookup@),
            reqs_extend(r3, l3, reuse_requirements@, reuse_requirements_lookup@),
            new_entries_used(*virtual_images, *node, l0, reuse_requirements_lookup@),
            forall|j: int| 0 <= j < i ==> covered(*virtual_images, reuse_requirements@, reuse_requirements_lookup@, #[trigger] node.sampled_images@[j], pass_index as int),
    {
        let ghost ra = reuse_requirements@;
        let ghost la = reuse_requirements_lookup@;
        proof {
            assert(node_uses(*node, node.sampled_images@[i as int]));
        }
        match add_or_modify_reuse_image_requirements(virtual_images, image_constraints, pass_index, node.sampled_images[i], reuse_requirements, reuse_requirements_lookup) {
            Ok(_) => {},
            Err(e) => { return Err(e); },
        }
        proof {
            lemma_new_entries_step(*virtual_images, *node, l0, la, reuse_requirements_lookup@, node.sampled_images@[i as int]);
            lemma_reqs_extend_trans(r0, l0, ra, la, reuse_requirements@, reuse_requirements_lookup@);
            lemma_reqs_extend_trans(r3, l3, ra, la, reuse_requirements@, reuse_requirements_lookup@);
            assert forall|j: int| 0 <= j < i + 1 implies covered(*virtual_images, reuse_requirements@, reuse_requirements_lookup@, #[trigger] node.sampled_images@[j], pass_index as int) by {
                if j < i {
                    lemma_covered_stable(*virtual_images, ra, la, reuse_requirements@, reuse_requirements_lookup@, node.sampled_images@[j], pass_index as int);
                }
            }
        }
    }
    proof {
        let rf = reuse_requirements@;
        let lf = reuse_requirements_lookup@;
        assert forall|u: RenderGraphImageUsageId| #[trigger] node_uses(*node, u) implies covered(*virtual_images, rf, lf, u, pass_index as int) by {
            if exists|i: int| 0 <= i < node.image_modifies@.len() && (#[trigger] node.image_modifies@[i]).input == u {
                let i = choose|i: int| 0 <= i < node.image_modifies@.len() && (#[trigger] node.image_modifies@[i]).input == u;
                lemma_covered_stable(*virtual_images, r1, l1, rf, lf, u, pass_index as int);
            } else if exists|i: int| 0 <= i < node.image_modifies@.len() && (#[trigger] node.image_modifies@[i]).output == u {
                let i = choose|i: int| 0 <= i < node.image_modifies@.len() && (#[trigger] node.image_modifies@[i]).output == u;
                lemma_covered_stable(*virtual_images, r1, l1, rf, lf, u, pass_index as int);
            } else if exists|i: int| 0 <= i < node.image_reads@.len() && (#[trigger] node.image_reads@[i]).image == u {
                let i = choose|i: int| 0 <= i < node.image_reads@.len() && (#[trigger] node.image_reads@[i]).image == u;
                lemma_covered_stable(*virtual_images, r2, l2, rf, lf, u, pass_index as int);
            } else if exists|i: int| 0 <= i < node.image_creates@.len() && (#[trigger] node.image_creates@[i]).image == u {
                let i = choose|i: int| 0 <= i < node.image_creates@.len() && (#[trigger] node.image_creates@[i]).image == u;
                lemma_covered_stable(*virtual_images, r3, l3, rf, lf, u, pass_index as int);
            } else {
                let i = choose|i: int| 0 <= i < node.sampled_images@.len() && #[trigger] node.sampled_images@[i] == u;
            }
        }
    }
    Ok(())
}

/// The virtual images and node of each pass are in range.
pub open spec fn passes_wf(g: RenderGraphBuilder, passes: Seq<RenderGraphPass>) -> bool {
    forall|k: int| 0 <= k < passes.len() ==> (#[trigger] passes[k]).subpasses@.len() == 1 && passes[k].subpasses@[0].node.0 < g.nodes@.len()
}

pub open spec fn virtual_ids_below_count(virt: AssignVirtualImagesResult) -> bool {
    forall|u: int| 0 <= u < virt.usage_to_virtual@.len() && (#[trigger] virt.usage_to_virtual@[u]) is Some
        ==> (virt.usage_to_virtual@[u]->0).0 < virt.virtual_image_count
}

/// Walks the passes in order and records, for each virtual image, the span of passes that use
/// it and the specification it needs.
fn collect_reuse_requirements(
    graph: &RenderGraphBuilder,
    virtual_images: &AssignVirtualImagesResult,
    image_constraints: &DetermineImageConstraintsResult,
    passes: &Vec<RenderGraphPass>,
) -> (r: Result<(Vec<PhysicalImageReuseRequirements>, Vec<Option<usize>>), RenderGraphPlanError>)
    requires
        graph.wf(),
        passes_wf(*graph, passes@),
        virtual_ids_below_count(*virtual_images),
    ensures
        r is Ok ==> {
            let (reqs, lookup) = r->Ok_0;
            &&& reqs_wf(*image_constraints, *virtual_images, reqs@, lookup@, passes@.len() as int)
            &&& forall|k: int, u: RenderGraphImageUsageId| 0 <= k < passes@.len() && #[trigger] node_uses(graph.spec_node(passes@[k].subpasses@[0].node), u)
                ==> covered(*virtual_images, reqs@, lookup@, u, k)
            &&& forall|v: int| 0 <= v < lookup@.len() && (#[trigger] lookup@[v]) is Some
                ==> exists|k: int| #[trigger] pass_uses_virtual(*graph, *virtual_images, passes@, k, VirtualImageId(v as usize))
        },
        r is Err ==> exists|k: int, u: RenderGraphImageUsageId| 0 <= k < passes@.len()
            && #[trigger] node_uses(graph.spec_node(passes@[k].subpasses@[0].node), u) && usage_unplaceable(*virtual_images, *image_constraints, u),
{
    let mut reqs: Vec<PhysicalImageReuseRequirements> = Vec::new();
    let mut lookup: Vec<Option<usize>> = Vec::new();
    let count = virtual_images.virtual_image_count;
    for i in 0..count
        invariant
            lookup@.len() == i,
            forall|j: int| 0 <= j < i ==> lookup@[j] is None,
    {
        lookup.push(None);
    }
    let npasses = passes.len();
    for pi in 0..npasses
        invariant
            graph.wf(),
            npasses == passes@.len(),
            passes_wf(*graph, passes@),
            virtual_ids_below_count(*virtual_images),
            reqs_wf(*image_constraints, *virtual_images, reqs@, lookup@, pi as int),
            forall|k: int, u: RenderGraphImageUsageId| 0 <= k < pi && #[trigger] node_uses(graph.spec_node(passes@[k].subpasses@[0].node), u)
                ==> covered(*virtual_images, reqs@, lookup@, u, k),
            forall|v: int| 0 <= v < lookup@.len() && (#[trigger] lookup@[v]) is Some
                ==> exists|k: int| #[trigger] pass_uses_virtual(*graph, *virtual_images, passes@, k, VirtualImageId(v as usize)),
    {
        let ghost r0 = reqs@;
        let ghost l0 = lookup@;
        proof {
            assert(passes@[pi as int].subpasses@.len() == 1);
        }
        let node = graph.node(passes[pi].subpasses[0].node);
        match cover_node_usages(graph, virtual_images, image_constraints, pi, node, &mut reqs, &mut lookup) {
            Ok(_) => {},
            Err(e) => {
                proof {
                    let u = choose|u: RenderGraphImageUsageId| #[trigger] node_uses(*node, u) && usage_unplaceable(*virtual_images, *image_constraints, u);
                    assert(node_uses(graph.spec_node(passes@[pi as int].subpasses@[0].node), u));
                }
                return Err(e);
            },
        }
        proof {
            assert forall|v: int| 0 <= v < lookup@.len() && (#[trigger] lookup@[v]) is Some
                implies exists|k: int| #[trigger] pass_uses_virtual(*graph, *virtual_images, passes@, k, VirtualImageId(v as usize)) by {
                if l0[v] is None {
                    let u = choose|u: RenderGraphImageUsageId| #[trigger] node_uses(*node, u) && u.0 < virtual_images.usage_to_virtual@.len()
                        && virtual_images.usage_to_virtual@[u.0 as int] == Some(VirtualImageId(v as usize));
                    assert(node_uses(graph.spec_node(passes@[pi as int].subpasses@[0].node), u));
                    assert(pass_uses_virtual(*graph, *virtual_images, passes@, pi as int, VirtualImageId(v as usize)));
                } else {
                    assert(l0[v] is Some);
                }
            }
            lemma_reqs_wf_later(*image_constraints, *virtual_images, reqs@, lookup@, pi as int, pi + 1);
            assert forall|k: int, u: RenderGraphImageUsageId| 0 <= k < pi + 1 && #[trigger] node_uses(graph.spec_node(passes@[k].subpasses@[0].node), u)
                implies covered(*virtual_images, reqs@, lookup@, u, k) by {
                if k < pi {
                    lemma_covered_stable(*virtual_images, r0, l0, reqs@, lookup@, u, k);
                }
            }
        }
    }
    Ok((reqs, lookup))
}

/// Flag bit `b` is needed by the requirements of some virtual image placed on physical image
/// `p`.
pub open spec fn placed_with_bit(
    reqs: Seq<PhysicalImageReuseRequirements>,
    lookup: Seq<Option<usize>>,
    v2p: Seq<Option<PhysicalImageId>>,
    p: int,
    b: u32,
) -> bool {
    exists|v: int| 0 <= v < v2p.len() && v2p[v] == Some(PhysicalImageId(p as usize)) && v < lookup.len() && lookup[v] is Some
        && (lookup[v]->0) < reqs.len() && #[trigger] spec_flag_bit(reqs[lookup[v]->0 as int].specification, b)
}

/// What the assignment of virtual images to physical images keeps true: every assigned
/// physical image exists; one that cannot be reused holds a single virtual image; one that can
/// holds virtual images whose spans of passes do not overlap, all ending by its last pass, and
/// whose specifications it can hold.
spec fn phys_inv(
    reqs: Seq<PhysicalImageReuseRequirements>,
    lookup: Seq<Option<usize>>,
    phys: Seq<PhysicalImage>,
    v2p: Seq<Option<PhysicalImageId>>,
) -> bool {
    &&& v2p.len() == lookup.len()
    &&& forall|v: int| 0 <= v < v2p.len() && (#[trigger] v2p[v]) is Some ==> (v2p[v]->0).0 < phys.len()
    &&& forall|v1: int, v2: int|
        0 <= v1 < v2p.len() && 0 <= v2 < v2p.len() && (#[trigger] v2p[v1]) is Some && #[trigger] v2p[v2] == v2p[v1]
            && !phys[(v2p[v1]->0).0 as int].can_be_reused ==> v1 == v2
    &&& forall|v: int| 0 <= v < v2p.len() && (#[trigger] v2p[v]) is Some && phys[(v2p[v]->0).0 as int].can_be_reused ==> {
        let p = phys[(v2p[v]->0).0 as int];
        &&& lookup[v] is Some
        &&& (lookup[v]->0) < reqs.len()
        &&& reqs[lookup[v]->0 as int].last_node_pass_index <= p.last_node_pass_index
        &&& p.specification.spec_can_merge(reqs[lookup[v]->0 as int].specification)
        &&& p.specification.spec_has_flags_of(reqs[lookup[v]->0 as int].specification)
    }
    &&& forall|v1: int, v2: int|
        0 <= v1 < v2p.len() && 0 <= v2 < v2p.len() && v1 != v2 && (#[trigger] v2p[v1]) is Some && #[trigger] v2p[v2] == v2p[v1]
            && phys[(v2p[v1]->0).0 as int].can_be_reused ==> {
            let r1 = reqs[lookup[v1]->0 as int];
            let r2 = reqs[lookup[v2]->0 as int];
            r1.last_node_pass_index < r2.first_node_pass_index || r2.last_node_pass_index < r1.first_node_pass_index
        }
    &&& forall|p: int, b: u32| 0 <= p < phys.len() && phys[p].can_be_reused && b < 96 && #[trigger] spec_flag_bit(phys[p].specification, b)
        ==> placed_with_bit(reqs, lookup, v2p, p, b)
}

/// Gives each virtual image with requirements (and not already given an output image) a
/// physical image: the first reusable one whose last use comes before the span starts and whose
/// specification is compatible, or else a new one.
#[verifier::rlimit(40)]
fn assign_requirements(
    reqs: &Vec<PhysicalImageReuseRequirements>,
    Ghost(lookup): Ghost<Seq<Option<usize>>>,
    Ghost(res): Ghost<DetermineImageConstraintsResult>,
    Ghost(virt): Ghost<AssignVirtualImagesResult>,
    Ghost(cur): Ghost<int>,
    physical_images: &mut Vec<PhysicalImage>,
    virtual_to_physical: &mut Vec<Option<PhysicalImageId>>,
)
    requires
        reqs_wf(res, virt, reqs@, lookup, cur),
        phys_inv(reqs@, lookup, old(physical_images)@, old(virtual_to_physical)@),
    ensures
        phys_inv(reqs@, lookup, final(physical_images)@, final(virtual_to_physical)@),
        final(physical_images)@.len() >= old(physical_images)@.len(),
        forall|p: int| 0 <= p < old(physical_images)@.len() ==> (#[trigger] final(physical_images)@[p]).can_be_reused == old(physical_images)@[p].can_be_reused,
        forall|p: int| old(physical_images)@.len() <= p < final(physical_images)@.len() ==> (#[trigger] final(physical_images)@[p]).can_be_reused,
        forall|p: int| 0 <= p < old(physical_images)@.len() && !old(physical_images)@[p].can_be_reused ==> #[trigger] final(physical_images)@[p] == old(physical_images)@[p],
        forall|v: int| 0 <= v < old(virtual_to_physical)@.len() && (#[trigger] old(virtual_to_physical)@[v]) is Some ==> final(virtual_to_physical)@[v] == old(virtual_to_physical)@[v],
        forall|r: int| 0 <= r < reqs@.len() ==> (#[trigger] final(virtual_to_physical)@[reqs@[r].virtual_id.0 as int]) is Some,
{
    let ghost phys0 = physical_images@;
    let ghost v2p0 = virtual_to_physical@;
    let nreqs = reqs.len();
    for ri in 0..nreqs
        invariant
            nreqs == reqs@.len(),
            reqs_wf(res, virt, reqs@, lookup, cur),
            phys_inv(reqs@, lookup, physical_images@, virtual_to_physical@),
            physical_images@.len() >= phys0.len(),
            forall|p: int| 0 <= p < phys0.len() ==> (#[trigger] physical_images@[p]).can_be_reused == phys0[p].can_be_reused,
            forall|p: int| phys0.len() <= p < physical_images@.len() ==> (#[trigger] physical_images@[p]).can_be_reused,
            forall|p: int| 0 <= p < phys0.len() && !phys0[p].can_be_reused ==> #[trigger] physical_images@[p] == phys0[p],
            forall|v: int| 0 <= v < v2p0.len() && (#[trigger] v2p0[v]) is Some ==> virtual_to_physical@[v] == v2p0[v],
            virtual_to_physical@.len() == v2p0.len(),
            forall|r: int| 0 <= r < ri ==> (#[trigger] virtual_to_physical@[reqs@[r].virtual_id.0 as int]) is Some,
    {
        let req = &reqs[ri];
        let v = req.virtual_id.0;
        proof {
            assert(lookup[v as int] == Some(ri));
        }
        if virtual_to_physical[v].is_some() {
            // Already given an output image
        } else {
            let ghost phys_b = physical_images@;
            let ghost v2p_b = virtual_to_physical@;
            let mut found: Option<usize> = None;
            let nphys = physical_images.len();
            let mut pi: usize = 0;
            while pi < nphys
                invariant_except_break
                    found is None,
                    physical_images@ == phys_b,
                invariant
                    nphys == phys_b.len(),
                    pi <= nphys,
                    phys_b.len() == physical_images@.len(),
                    forall|p: int| 0 <= p < phys_b.len() ==> (#[trigger] physical_images@[p]).can_be_reused == phys_b[p].can_be_reused,
                    forall|p: int| 0 <= p < phys_b.len() && !(#[trigger] phys_b[p]).can_be_reused ==> physical_images@[p] == phys_b[p],
                ensures
                    found is None ==> physical_images@ == phys_b,
                    found is Some ==> {
                        let p = found->0;
                        &&& p < phys_b.len()
                        &&& phys_b[p as int].can_be_reused
                        &&& phys_b[p as int].last_node_pass_index < req.first_node_pass_index
                        &&& phys_b[p as int].specification.spec_can_merge(req.specification)
                        &&& physical_images@ == phys_b.update(p as int, PhysicalImage {
                            specification: phys_b[p as int].specification.spec_merged(req.specification),
                            last_node_pass_index: req.last_node_pass_index,
                            can_be_reused: true,
                        })
                    },
                decreases nphys - pi,
            {
                if physical_images[pi].last_node_pass_index < req.first_node_pass_index && physical_images[pi].can_be_reused {
                    let mut spec = physical_images[pi].specification;
                    if spec.try_merge(&req.specification) {
                        physical_images.set(pi, PhysicalImage {
                            specification: spec,
                            last_node_pass_index: req.last_node_pass_index,
                            can_be_reused: true,
                        });
                        found = Some(pi);
                        break;
                    }
                }
                pi = pi + 1;
            }
            let id = match found {
                Some(p) => PhysicalImageId(p),
                None => {
                    let p = physical_images.len();
                    physical_images.push(PhysicalImage {
                        specification: req.specification,
                        last_node_pass_index: req.last_node_pass_index,
                        can_be_reused: true,
                    });
                    PhysicalImageId(p)
                },
            };
            virtual_to_physical.set(v, Some(id));
            proof {
                let phys = physical_images@;
                let v2p = virtual_to_physical@;
                assert(v2p_b[v as int] is None);
                assert forall|w: int| 0 <= w < v2p0.len() && (#[trigger] v2p0[w]) is Some implies v2p[w] == v2p0[w] by {
                    assert(v2p_b[w] == v2p0[w]);
                }
                assert forall|v1: int, v2: int|
                    0 <= v1 < v2p.len() && 0 <= v2 < v2p.len() && (#[trigger] v2p[v1]) is Some && #[trigger] v2p[v2] == v2p[v1]
                        && !phys[(v2p[v1]->0).0 as int].can_be_reused implies v1 == v2 by {
                    if v1 != v && v2 != v {
                        assert(v2p[v1] == v2p_b[v1] && v2p[v2] == v2p_b[v2]);
                        assert(phys[(v2p[v1]->0).0 as int].can_be_reused == phys_b[(v2p[v1]->0).0 as int].can_be_reused);
                    } else if v1 == v {
                        assert(phys[id.0 as int].can_be_reused);
                    } else {
                        assert(phys[id.0 as int].can_be_reused);
                    }
                }
                assert forall|w: int| 0 <= w < v2p.len() && (#[trigger] v2p[w]) is Some && phys[(v2p[w]->0).0 as int].can_be_reused implies {
                    let p = phys[(v2p[w]->0).0 as int];
                    &&& lookup[w] is Some
                    &&& (lookup[w]->0) < reqs@.len()
                    &&& reqs@[lookup[w]->0 as int].last_node_pass_index <= p.last_node_pass_index
                    &&& p.specification.spec_can_merge(reqs@[lookup[w]->0 as int].specification)
                    &&& p.specification.spec_has_flags_of(reqs@[lookup[w]->0 as int].specification)
                } by {
                    lemma_has_flags_order(req.specification, req.specification, req.specification);
                    if found is Some {
                        lemma_merged_has_flags(phys_b[found->0 as int].specification, req.specification);
                    }
                    if w != v {
                        assert(v2p[w] == v2p_b[w]);
                        let pw = (v2p[w]->0).0 as int;
                        if found is Some && pw == found->0 {
                            assert(phys_b[pw].can_be_reused);
                            lemma_has_flags_order(phys[pw].specification, phys_b[pw].specification, reqs@[lookup[w]->0 as int].specification);
                        } else if pw < phys_b.len() {
                            assert(phys[pw] == phys_b[pw]);
                        }
                    }
                }
                assert forall|v1: int, v2: int|
                    0 <= v1 < v2p.len() && 0 <= v2 < v2p.len() && v1 != v2 && (#[trigger] v2p[v1]) is Some && #[trigger] v2p[v2] == v2p[v1]
                        && phys[(v2p[v1]->0).0 as int].can_be_reused implies {
                        let r1 = reqs@[lookup[v1]->0 as int];
                        let r2 = reqs@[lookup[v2]->0 as int];
                        r1.last_node_pass_index < r2.first_node_pass_index || r2.last_node_pass_index < r1.first_node_pass_index
                    } by {
                    let p = (v2p[v1]->0).0 as int;
                    if v1 != v && v2 != v {
                        assert(v2p[v1] == v2p_b[v1] && v2p[v2] == v2p_b[v2]);
                        assert(phys_b[p].can_be_reused == phys[p].can_be_reused);
                    } else if v1 == v {
                        assert(v2p[v2] == v2p_b[v2]);
                        assert(phys_b[p].can_be_reused);
                        assert(reqs@[lookup[v2]->0 as int].last_node_pass_index <= phys_b[p].last_node_pass_index);
                    } else {
                        assert(v2p[v1] == v2p_b[v1]);
                        assert(phys_b[p].can_be_reused);
                        assert(reqs@[lookup[v1]->0 as int].last_node_pass_index <= phys_b[p].last_node_pass_index);
                    }
                }
                assert forall|q: int, b: u32| 0 <= q < phys.len() && phys[q].can_be_reused && b < 96 && #[trigger] spec_flag_bit(phys[q].specification, b)
                    implies placed_with_bit(reqs@, lookup, v2p, q, b) by {
                    let is_new = found is None && q == phys_b.len();
                    let is_found = found is Some && q == found->0;
                    if is_new || is_found {
                        if is_found {
                            lemma_merged_flag_bit(phys_b[q].specification, req.specification, b);
                        }
                        if spec_flag_bit(req.specification, b) {
                            assert(v2p[v as int] == Some(PhysicalImageId(q as usize)));
                            assert(spec_flag_bit(reqs@[lookup[v as int]->0 as int].specification, b));
                        } else {
                            assert(spec_flag_bit(phys_b[q].specification, b));
                            assert(placed_with_bit(reqs@, lookup, v2p_b, q, b));
                            let w = choose|w: int| 0 <= w < v2p_b.len() && v2p_b[w] == Some(PhysicalImageId(q as usize)) && w < lookup.len() && lookup[w] is Some
                                && (lookup[w]->0) < reqs@.len() && #[trigger] spec_flag_bit(reqs@[lookup[w]->0 as int].specification, b);
                            assert(v2p[w] == v2p_b[w]);
                        }
                    } else {
                        assert(q < phys_b.len());
                        assert(phys[q] == phys_b[q]);
                        assert(placed_with_bit(reqs@, lookup, v2p_b, q, b));
                        let w = choose|w: int| 0 <= w < v2p_b.len() && v2p_b[w] == Some(PhysicalImageId(q as usize)) && w < lookup.len() && lookup[w] is Some
                            && (lookup[w]->0) < reqs@.len() && #[trigger] spec_flag_bit(reqs@[lookup[w]->0 as int].specification, b);
                        assert(v2p[w] == v2p_b[w]);
                    }
                }
            }
        }
        proof {
            assert forall|r: int| 0 <= r < ri + 1 implies (#[trigger] virtual_to_physical@[reqs@[r].virtual_id.0 as int]) is Some by {
            }
        }
    }
}

/// Usages that share a virtual image share a specification.
pub open spec fn virtual_images_share_specs(res: DetermineImageConstraintsResult, virt: AssignVirtualImagesResult) -> bool {
    forall|u1: int, u2: int|
        0 <= u1 < virt.usage_to_virtual@.len() && 0 <= u2 < virt.usage_to_virtual@.len() && (#[trigger] virt.usage_to_virtual@[u1]) is Some
            && #[trigger] virt.usage_to_virtual@[u2] == virt.usage_to_virtual@[u1]
            ==> res.spec_specification(RenderGraphImageUsageId(u1 as usize)) == res.spec_specification(RenderGraphImageUsageId(u2 as usize))
}

/// Each attachment of each pass names a usage and the virtual image of that usage.
pub open spec fn attachments_assigned(virt: AssignVirtualImagesResult, passes: Seq<RenderGraphPass>) -> bool {
    forall|k: int, j: int| 0 <= k < passes.len() && 0 <= j < passes[k].attachments@.len() ==> {
        let a = #[trigger] passes[k].attachments@[j];
        &&& a.usage.0 < virt.usage_to_virtual@.len()
        &&& virt.usage_to_virtual@[a.usage.0 as int] == Some(a.virtual_image)
    }
}

/// The view usage `u` needs of physical image `p`.
pub open spec fn spec_view_for(g: RenderGraphBuilder, res: DetermineImageConstraintsResult, u: int, p: PhysicalImageId) -> RenderGraphImageView {
    RenderGraphImageView {
        physical_image: p,
        subresource_range: g.image_usages@[u].subresource_range.spec_resolve(res.spec_specification(RenderGraphImageUsageId(u as usize))->0),
        view_type: g.image_usages@[u].view_type,
    }
}

/// What the assignment of physical images needs: every usage of a node in a pass has a
/// virtual image and a specification; every output image has a virtual image of its own; and
/// every usage with a virtual image has a specification and a virtual image that some pass
/// uses or that belongs to an output.
#[verifier::opaque]
pub open spec fn physical_images_assignable(
    g: RenderGraphBuilder,
    res: DetermineImageConstraintsResult,
    virt: AssignVirtualImagesResult,
    passes: Seq<RenderGraphPass>,
) -> bool {
    let map = virt.usage_to_virtual@;
    let outs = g.output_images@;
    &&& forall|k: int, u: RenderGraphImageUsageId| 0 <= k < passes.len() && #[trigger] node_uses(g.spec_node(passes[k].subpasses@[0].node), u)
        ==> !usage_unplaceable(virt, res, u)
    &&& forall|i: int| 0 <= i < outs.len() ==> map[(#[trigger] outs[i]).usage.0 as int] is Some
    &&& forall|i: int, j: int| 0 <= i < j < outs.len() ==> map[(#[trigger] outs[i]).usage.0 as int] != map[(#[trigger] outs[j]).usage.0 as int]
    &&& forall|u: int| 0 <= u < map.len() && (#[trigger] map[u]) is Some ==> {
        &&& res.spec_specification(RenderGraphImageUsageId(u as usize)) is Some
        &&& (exists|k: int| #[trigger] pass_uses_virtual(g, virt, passes, k, map[u]->0))
            || (exists|i: int| 0 <= i < outs.len() && map[(#[trigger] outs[i]).usage.0 as int] == map[u])
    }
}

/// A virtual image without a physical image is neither used by a pass nor an output's.
pub open spec fn unplaced_virtuals_unused(
    g: RenderGraphBuilder,
    virt: AssignVirtualImagesResult,
    passes: Seq<RenderGraphPass>,
    v2p: Seq<Option<PhysicalImageId>>,
) -> bool {
    forall|v: int| 0 <= v < v2p.len() && (#[trigger] v2p[v]) is None ==> {
        &&& forall|k: int| !(#[trigger] pass_uses_virtual(g, virt, passes, k, VirtualImageId(v as usize)))
        &&& forall|i: int| 0 <= i < g.output_images@.len() ==> virt.usage_to_virtual@[(#[trigger] g.output_images@[i]).usage.0 as int] != Some(VirtualImageId(v as usize))
    }
}

proof fn lemma_unplaceable_usage_blocks(
    g: RenderGraphBuilder,
    res: DetermineImageConstraintsResult,
    virt: AssignVirtualImagesResult,
    passes: Seq<RenderGraphPass>,
    k: int,
    u: RenderGraphImageUsageId,
)
    requires
        0 <= k < passes.len(),
        node_uses(g.spec_node(passes[k].subpasses@[0].node), u),
        usage_unplaceable(virt, res, u),
    ensures
        !physical_images_assignable(g, res, virt, passes),
{
    reveal(physical_images_assignable);
}

proof fn lemma_unassigned_output_blocks(
    g: RenderGraphBuilder,
    res: DetermineImageConstraintsResult,
    virt: AssignVirtualImagesResult,
    passes: Seq<RenderGraphPass>,
    i: int,
)
    requires
        0 <= i < g.output_images@.len(),
        virt.usage_to_virtual@[g.output_images@[i].usage.0 as int] is None,
    ensures
        !physical_images_assignable(g, res, virt, passes),
{
    reveal(physical_images_assignable);
}

proof fn lemma_shared_outputs_block(
    g: RenderGraphBuilder,
    res: DetermineImageConstraintsResult,
    virt: AssignVirtualImagesResult,
    passes: Seq<RenderGraphPass>,
    i: int,
    j: int,
)
    requires
        0 <= i < j < g.output_images@.len(),
        virt.usage_to_virtual@[g.output_images@[i].usage.0 as int] == virt.usage_to_virtual@[g.output_images@[j].usage.0 as int],
    ensures
        !physical_images_assignable(g, res, virt, passes),
{
    reveal(physical_images_assignable);
}

proof fn lemma_stray_usage_blocks(
    g: RenderGraphBuilder,
    res: DetermineImageConstraintsResult,
    virt: AssignVirtualImagesResult,
    passes: Seq<RenderGraphPass>,
    v2p: Seq<Option<PhysicalImageId>>,
    u: int,
)
    requires
        0 <= u < virt.usage_to_virtual@.len(),
        virt.usage_to_virtual@[u] is Some,
        res.spec_specification(RenderGraphImageUsageId(u as usize)) is None || {
            &&& unplaced_virtuals_unused(g, virt, passes, v2p)
            &&& (virt.usage_to_virtual@[u]->0).0 < v2p.len()
            &&& v2p[(virt.usage_to_virtual@[u]->0).0 as int] is None
        },
    ensures
        !physical_images_assignable(g, res, virt, passes),
{
    reveal(physical_images_assignable);
    let map = virt.usage_to_virtual@;
    if physical_images_assignable(g, res, virt, passes) {
        assert(map[u] is Some);
        if res.spec_specification(RenderGraphImageUsageId(u as usize)) is Some {
            let v = (map[u]->0).0 as int;
            assert(v2p[v] is None);
            assert(VirtualImageId(v as usize) == map[u]->0);
            if exists|k: int| #[trigger] pass_uses_virtual(g, virt, passes, k, map[u]->0) {
                let k = choose|k: int| #[trigger] pass_uses_virtual(g, virt, passes, k, map[u]->0);
                assert(!pass_uses_virtual(g, virt, passes, k, VirtualImageId(v as usize)));
            } else {
                let i = choose|i: int| 0 <= i < g.output_images@.len() && map[(#[trigger] g.output_images@[i]).usage.0 as int] == map[u];
                assert(map[g.output_images@[i].usage.0 as int] != Some(VirtualImageId(v as usize)));
            }
        }
    }
}

fn none_vec<T>(n: usize) -> (r: Vec<Option<T>>)
    ensures
        r@.len() == n,
        forall|i: int| 0 <= i < n ==> r@[i] is None,
{
    let mut v: Vec<Option<T>> = Vec::new();
    for i in 0..n
        invariant
            v@.len() == i,
            forall|j: int| 0 <= j < i ==> v@[j] is None,
    {
        v.push(None);
    }
    v
}

/// Flag bit `b` is needed by the specification of some usage placed on physical image `p`.
pub open spec fn usage_with_bit(
    image_constraints: DetermineImageConstraintsResult,
    usage_to_physical: Seq<Option<PhysicalImageId>>,
    p: int,
    b: u32,
) -> bool {
    exists|u: int| 0 <= u < usage_to_physical.len() && usage_to_physical[u] == Some(PhysicalImageId(p as usize))
        && image_constraints.spec_specification(RenderGraphImageUsageId(u as usize)) is Some
        && #[trigger] spec_flag_bit(image_constraints.spec_specification(RenderGraphImageUsageId(u as usize))->0, b)
}

/// What `assign_physical_images` gives when it succeeds on `ps0`: the physical images `res` and
/// the passes `ps1` with each attachment's image and view filled in.
pub open spec fn physical_assignment(
    graph: RenderGraphBuilder,
    image_constraints: DetermineImageConstraintsResult,
    virtual_images: AssignVirtualImagesResult,
    ps0: Seq<RenderGraphPass>,
    res: AssignPhysicalImagesResult,
    ps1: Seq<RenderGraphPass>,
) -> bool {
    let v2p = res.virtual_to_physical@;
    let map = virtual_images.usage_to_virtual@;
    let nout = graph.output_images@.len();
    &&& v2p.len() == virtual_images.virtual_image_count
    // Two virtual images share a physical image only if every pass using one comes
    // before every pass using the other.
    &&& forall|v1: int, v2: int|
        0 <= v1 < v2p.len() && 0 <= v2 < v2p.len() && v1 != v2 && (#[trigger] v2p[v1]) is Some && #[trigger] v2p[v2] == v2p[v1] ==>
        (forall|k1: int, k2: int| #[trigger] pass_uses_virtual(graph, virtual_images, ps0, k1, VirtualImageId(v1 as usize))
            && #[trigger] pass_uses_virtual(graph, virtual_images, ps0, k2, VirtualImageId(v2 as usize)) ==> k1 < k2)
        || (forall|k1: int, k2: int| #[trigger] pass_uses_virtual(graph, virtual_images, ps0, k1, VirtualImageId(v1 as usize))
            && #[trigger] pass_uses_virtual(graph, virtual_images, ps0, k2, VirtualImageId(v2 as usize)) ==> k2 < k1)
    // Output image i gets physical image i, created to the caller's specification, and
    // shared with nothing else.
    &&& res.specifications@.len() >= nout
    &&& forall|i: int| 0 <= i < nout ==> {
        let u = (#[trigger] graph.output_images@[i]).usage;
        &&& map[u.0 as int] is Some
        &&& v2p[(map[u.0 as int]->0).0 as int] == Some(PhysicalImageId(i as usize))
        &&& res.specifications@[i] == graph.output_images@[i].specification
    }
    &&& forall|v: int, i: int| 0 <= v < v2p.len() && 0 <= i < nout && #[trigger] v2p[v] == Some(PhysicalImageId(i as usize))
        ==> map[(#[trigger] graph.output_images@[i]).usage.0 as int] == Some(VirtualImageId(v as usize))
    &&& forall|v: int| 0 <= v < v2p.len() && (#[trigger] v2p[v]) is Some ==> (v2p[v]->0).0 < res.specifications@.len()
    // Each usage with a virtual image has the physical image of that virtual image
    &&& res.usage_to_physical@.len() == map.len()
    &&& forall|u: int| 0 <= u < map.len() ==> #[trigger] res.usage_to_physical@[u] == (if map[u] is Some {
        v2p[(map[u]->0).0 as int]
    } else {
        None
    })
    &&& forall|u: int| 0 <= u < map.len() && (#[trigger] map[u]) is Some ==> res.usage_to_physical@[u] is Some
    // A shared (not output) physical image can hold every usage mapped to it, and has every
    // flag that usage needs
    &&& forall|u: int| 0 <= u < map.len() && (#[trigger] res.usage_to_physical@[u]) is Some && (res.usage_to_physical@[u]->0).0 >= nout ==> {
        let s = image_constraints.spec_specification(RenderGraphImageUsageId(u as usize));
        &&& s is Some
        &&& res.specifications@[(res.usage_to_physical@[u]->0).0 as int].spec_can_merge(s->0)
        &&& res.specifications@[(res.usage_to_physical@[u]->0).0 as int].spec_has_flags_of(s->0)
    }
    // A shared physical image has no flag that no usage placed on it needs
    &&& forall|p: int, b: u32| nout <= p < res.specifications@.len() && b < 96 && #[trigger] spec_flag_bit(res.specifications@[p], b)
        ==> usage_with_bit(image_constraints, res.usage_to_physical@, p, b)
    // Each usage with a physical image has a view of it, and no view is listed twice
    &&& res.usage_to_image_view@.len() == map.len()
    &&& forall|u: int| 0 <= u < map.len() && (#[trigger] res.usage_to_physical@[u]) is Some ==> {
        &&& res.usage_to_image_view@[u] is Some
        &&& (res.usage_to_image_view@[u]->0).0 < res.image_views@.len()
        &&& res.image_views@[(res.usage_to_image_view@[u]->0).0 as int] == spec_view_for(graph, image_constraints, u, res.usage_to_physical@[u]->0)
    }
    &&& res.image_views@.no_duplicates()
    // Each attachment records its physical image and view; nothing else changes
    &&& ps1.len() == ps0.len()
    &&& forall|k: int| 0 <= k < ps0.len() ==> {
        let p1 = #[trigger] ps1[k];
        let p0 = ps0[k];
        &&& p1.subpasses == p0.subpasses
        &&& p1.extents == p0.extents
        &&& p1.pre_pass_barrier == p0.pre_pass_barrier
        &&& p1.attachments@.len() == p0.attachments@.len()
        &&& forall|j: int| 0 <= j < p0.attachments@.len() ==> {
            let a0 = p0.attachments@[j];
            #[trigger] p1.attachments@[j] == (crate::passes::RenderGraphPassAttachment {
                image: v2p[a0.virtual_image.0 as int],
                image_view: res.usage_to_image_view@[a0.usage.0 as int],
                ..a0
            })
        }
    }
}

/// A physical image shared by virtual images is created with every aspect, usage and create
/// flag of every usage placed on it, so two usages on one image both find the flags they need.
pub proof fn lemma_shared_image_has_usage_flags(
    graph: RenderGraphBuilder,
    image_constraints: DetermineImageConstraintsResult,
    virtual_images: AssignVirtualImagesResult,
    ps0: Seq<RenderGraphPass>,
    res: AssignPhysicalImagesResult,
    ps1: Seq<RenderGraphPass>,
    u1: int,
    u2: int,
)
    requires
        physical_assignment(graph, image_constraints, virtual_images, ps0, res, ps1),
        0 <= u1 < res.usage_to_physical@.len(),
        0 <= u2 < res.usage_to_physical@.len(),
        res.usage_to_physical@[u1] is Some,
        res.usage_to_physical@[u2] == res.usage_to_physical@[u1],
        (res.usage_to_physical@[u1]->0).0 >= graph.output_images@.len(),
    ensures
        ({
            let spec = res.specifications@[(res.usage_to_physical@[u1]->0).0 as int];
            let s1 = image_constraints.spec_specification(RenderGraphImageUsageId(u1 as usize));
            let s2 = image_constraints.spec_specification(RenderGraphImageUsageId(u2 as usize));
            &&& s1 is Some && s2 is Some
            &&& spec.spec_has_flags_of(s1->0)
            &&& spec.spec_has_flags_of(s2->0)
        }),
{
    assert(res.usage_to_physical@[u1] is Some);
    assert(res.usage_to_physical@[u2] is Some);
}

/// The flags of a physical image shared by virtual images are exactly those that the usages
/// placed on it need: a flag bit is set in its specification if and only if the specification
/// of some usage on it has that bit.
pub proof fn lemma_shared_image_flags_exact(
    graph: RenderGraphBuilder,
    image_constraints: DetermineImageConstraintsResult,
    virtual_images: AssignVirtualImagesResult,
    ps0: Seq<RenderGraphPass>,
    res: AssignPhysicalImagesResult,
    ps1: Seq<RenderGraphPass>,
    p: int,
    b: u32,
)
    requires
        physical_assignment(graph, image_constraints, virtual_images, ps0, res, ps1),
        graph.output_images@.len() <= p < res.specifications@.len(),
        b < 96,
    ensures
        spec_flag_bit(res.specifications@[p], b) <==> usage_with_bit(image_constraints, res.usage_to_physical@, p, b),
{
    if usage_with_bit(image_constraints, res.usage_to_physical@, p, b) {
        let u = choose|u: int| 0 <= u < res.usage_to_physical@.len() && res.usage_to_physical@[u] == Some(PhysicalImageId(p as usize))
            && image_constraints.spec_specification(RenderGraphImageUsageId(u as usize)) is Some
            && #[trigger] spec_flag_bit(image_constraints.spec_specification(RenderGraphImageUsageId(u as usize))->0, b);
        assert(res.usage_to_physical@[u] is Some);
        assert(res.specifications@.len() == res.specifications.len());
        assert((res.usage_to_physical@[u]->0).0 == p);
        assert(res.specifications@[(res.usage_to_physical@[u]->0).0 as int].spec_has_flags_of(
            image_constraints.spec_specification(RenderGraphImageUsageId(u as usize))->0,
        ));
        lemma_has_flags_bit(res.specifications@[p], image_constraints.spec_specification(RenderGraphImageUsageId(u as usize))->0, b);
    }
}

/// Assigns physical images to virtual images so that a physical image is reused by virtual
/// images whose spans of passes do not overlap (output images are never shared), then creates
/// the views the usages need and records the images and views of every pass attachment.
pub fn assign_physical_images(
    graph: &RenderGraphBuilder,
    image_constraints: &DetermineImageConstraintsResult,
    virtual_images: &AssignVirtualImagesResult,
    passes: &mut Vec<RenderGraphPass>,
) -> (r: Result<AssignPhysicalImagesResult, RenderGraphPlanError>)
    requires
        graph.wf(),
        passes_wf(*graph, old(passes)@),
        virtual_ids_below_count(*virtual_images),
        virtual_images.usage_to_virtual@.len() == graph.image_usages@.len(),
        virtual_images_share_specs(*image_constraints, *virtual_images),
        attachments_assigned(*virtual_images, old(passes)@),
    ensures
        r is Err <==> !physical_images_assignable(*graph, *image_constraints, *virtual_images, old(passes)@),
        r is Ok ==> physical_assignment(*graph, *image_constraints, *virtual_images, old(passes)@, r->Ok_0, final(passes)@),
{
    let (reqs, lookup) = match collect_reuse_requirements(graph, virtual_images, image_constraints, passes) {
        Ok(x) => x,
        Err(e) => {
            proof {
                let (k, u) = choose|k: int, u: RenderGraphImageUsageId| 0 <= k < passes@.len()
                    && #[trigger] node_uses(graph.spec_node(passes@[k].subpasses@[0].node), u) && usage_unplaceable(*virtual_images, *image_constraints, u);
                lemma_unplaceable_usage_blocks(*graph, *image_constraints, *virtual_images, passes@, k, u);
            }
            return Err(e);
        },
    };
    let ghost lk = lookup@;
    let count = virtual_images.virtual_image_count;
    let mut physical_images: Vec<PhysicalImage> = Vec::new();
    let mut virtual_to_physical: Vec<Option<PhysicalImageId>> = none_vec(count);
    let last_pass_index = if passes.len() > 0 { passes.len() - 1 } else { 0 };

    // Output images first; they are never shared
    let nout = graph.output_images.len();
    for oi in 0..nout
        invariant
            graph.wf(),
            nout == graph.output_images@.len(),
            count == virtual_images.virtual_image_count,
            virtual_ids_below_count(*virtual_images),
            virtual_images.usage_to_virtual@.len() == graph.image_usages@.len(),
            reqs_wf(*image_constraints, *virtual_images, reqs@, lk, passes@.len() as int),
            phys_inv(reqs@, lk, physical_images@, virtual_to_physical@),
            physical_images@.len() == oi,
            forall|p: int| 0 <= p < oi ==> !(#[trigger] physical_images@[p]).can_be_reused
                && physical_images@[p].specification == graph.output_images@[p].specification,
            forall|i: int| 0 <= i < oi ==> {
                let u = (#[trigger] graph.output_images@[i]).usage;
                &&& virtual_images.usage_to_virtual@[u.0 as int] is Some
                &&& virtual_to_physical@[(virtual_images.usage_to_virtual@[u.0 as int]->0).0 as int] == Some(PhysicalImageId(i as usize))
            },
            forall|v: int| 0 <= v < virtual_to_physical@.len() && (#[trigger] virtual_to_physical@[v]) is Some ==> exists|i: int|
                0 <= i < oi && virtual_images.usage_to_virtual@[(#[trigger] graph.output_images@[i]).usage.0 as int] == Some(VirtualImageId(v as usize)),
            passes@ == old(passes)@,
    {
        let out = &graph.output_images[oi];
        let p = physical_images.len();
        let virtual_id = match virtual_images.usage_to_virtual[out.usage.0] {
            Some(v) => v,
            None => {
                proof {
                    assert(graph.output_images@[oi as int].usage == out.usage);
                    lemma_unassigned_output_blocks(*graph, *image_constraints, *virtual_images, passes@, oi as int);
                }
                return Err(RenderGraphPlanError::UnassignedImage(out.usage));
            },
        };
        if virtual_to_physical[virtual_id.0].is_some() {
            proof {
                let i = choose|i: int| 0 <= i < oi && virtual_images.usage_to_virtual@[(#[trigger] graph.output_images@[i]).usage.0 as int] == Some(VirtualImageId(virtual_id.0));
                assert(graph.output_images@[oi as int].usage == out.usage);
                assert(virtual_images.usage_to_virtual@[graph.output_images@[i].usage.0 as int] == virtual_images.usage_to_virtual@[graph.output_images@[oi as int].usage.0 as int]);
                lemma_shared_outputs_block(*graph, *image_constraints, *virtual_images, passes@, i, oi as int);
            }
            return Err(RenderGraphPlanError::ConflictingImageAssignment(out.usage));
        }
        let ghost phys_b = physical_images@;
        let ghost v2p_b = virtual_to_physical@;
        physical_images.push(PhysicalImage {
            specification: out.specification,
            last_node_pass_index: last_pass_index,
            can_be_reused: false,
        });
        virtual_to_physical.set(virtual_id.0, Some(PhysicalImageId(p)));
        proof {
            let phys = physical_images@;
            let v2p = virtual_to_physical@;
            let v = virtual_id.0 as int;
            assert forall|v1: int, v2: int|
                0 <= v1 < v2p.len() && 0 <= v2 < v2p.len() && (#[trigger] v2p[v1]) is Some && #[trigger] v2p[v2] == v2p[v1]
                    && !phys[(v2p[v1]->0).0 as int].can_be_reused implies v1 == v2 by {
                if v1 != v && v2 != v {
                    assert(v2p[v1] == v2p_b[v1] && v2p[v2] == v2p_b[v2]);
                    assert(phys[(v2p[v1]->0).0 as int] == phys_b[(v2p[v1]->0).0 as int]);
                } else if v1 == v {
                    assert(v2p[v2] == v2p_b[v2] || v2 == v);
                } else {
                    assert(v2p[v1] == v2p_b[v1]);
                }
            }
            assert forall|w: int| 0 <= w < v2p.len() && (#[trigger] v2p[w]) is Some && phys[(v2p[w]->0).0 as int].can_be_reused implies {
                let pp = phys[(v2p[w]->0).0 as int];
                &&& lk[w] is Some
                &&& (lk[w]->0) < reqs@.len()
                &&& reqs@[lk[w]->0 as int].last_node_pass_index <= pp.last_node_pass_index
                &&& pp.specification.spec_can_merge(reqs@[lk[w]->0 as int].specification)
                &&& pp.specification.spec_has_flags_of(reqs@[lk[w]->0 as int].specification)
            } by {
                if w != v {
                    assert(v2p[w] == v2p_b[w]);
                    assert(phys[(v2p[w]->0).0 as int] == phys_b[(v2p[w]->0).0 as int]);
                }
            }
            assert forall|v1: int, v2: int|
                0 <= v1 < v2p.len() && 0 <= v2 < v2p.len() && v1 != v2 && (#[trigger] v2p[v1]) is Some && #[trigger] v2p[v2] == v2p[v1]
                    && phys[(v2p[v1]->0).0 as int].can_be_reused implies {
                    let r1 = reqs@[lk[v1]->0 as int];
                    let r2 = reqs@[lk[v2]->0 as int];
                    r1.last_node_pass_index < r2.first_node_pass_index || r2.last_node_pass_index < r1.first_node_pass_index
                } by {
                if v1 != v && v2 != v {
                    assert(v2p[v1] == v2p_b[v1] && v2p[v2] == v2p_b[v2]);
                    assert(phys[(v2p[v1]->0).0 as int] == phys_b[(v2p[v1]->0).0 as int]);
                }
            }
            assert forall|i: int| 0 <= i < oi + 1 implies {
                let u = (#[trigger] graph.output_images@[i]).usage;
                &&& virtual_images.usage_to_virtual@[u.0 as int] is Some
                &&& virtual_to_physical@[(virtual_images.usage_to_virtual@[u.0 as int]->0).0 as int] == Some(PhysicalImageId(i as usize))
            } by {
                if i < oi {
                    let u = graph.output_images@[i].usage;
                    let w = (virtual_images.usage_to_virtual@[u.0 as int]->0).0 as int;
                    assert(v2p_b[w] == Some(PhysicalImageId(i as usize)));
                    assert(w != v);
                }
            }
            assert forall|w: int| 0 <= w < v2p.len() && (#[trigger] v2p[w]) is Some implies exists|i: int|
                0 <= i < oi + 1 && virtual_images.usage_to_virtual@[(#[trigger] graph.output_images@[i]).usage.0 as int] == Some(VirtualImageId(w as usize)) by {
                if w == v {
                    assert(graph.output_images@[oi as int].usage == out.usage);
                } else {
                    assert(v2p_b[w] is Some);
                }
            }
        }
    }

    // Then everything else, reusing images where lifetimes allow
    let ghost phys1 = physical_images@;
    let ghost v2p1 = virtual_to_physical@;
    assign_requirements(&reqs, Ghost(lk), Ghost(*image_constraints), Ghost(*virtual_images), Ghost(passes@.len() as int), &mut physical_images, &mut virtual_to_physical);
    let ghost phys = physical_images@;
    let ghost v2p = virtual_to_physical@;
    let ghost map = virtual_images.usage_to_virtual@;
    proof {
        assert forall|v: int| 0 <= v < v2p.len() && (#[trigger] v2p[v]) is None implies {
            &&& forall|k: int| !(#[trigger] pass_uses_virtual(*graph, *virtual_images, passes@, k, VirtualImageId(v as usize)))
            &&& forall|i: int| 0 <= i < graph.output_images@.len() ==> map[(#[trigger] graph.output_images@[i]).usage.0 as int] != Some(VirtualImageId(v as usize))
        } by {
            assert forall|k: int| !(#[trigger] pass_uses_virtual(*graph, *virtual_images, passes@, k, VirtualImageId(v as usize))) by {
                if pass_uses_virtual(*graph, *virtual_images, passes@, k, VirtualImageId(v as usize)) {
                    let u2 = choose|u2: RenderGraphImageUsageId|
                        0 <= k < passes@.len() && passes@[k].subpasses@.len() > 0 && #[trigger] node_uses(graph.spec_node(passes@[k].subpasses@[0].node), u2)
                            && u2.0 < map.len() && map[u2.0 as int] == Some(VirtualImageId(v as usize));
                    assert(covered(*virtual_images, reqs@, lk, u2, k));
                    let r = lk[v]->0;
                    assert(reqs@[r as int].virtual_id.0 == v);
                    assert(v2p[reqs@[r as int].virtual_id.0 as int] is Some);
                }
            }
            assert forall|i: int| 0 <= i < graph.output_images@.len() implies map[(#[trigger] graph.output_images@[i]).usage.0 as int] != Some(VirtualImageId(v as usize)) by {
                if map[graph.output_images@[i].usage.0 as int] == Some(VirtualImageId(v as usize)) {
                    assert(v2p1[v] == Some(PhysicalImageId(i as usize)));
                }
            }
        }
        assert(unplaced_virtuals_unused(*graph, *virtual_images, passes@, v2p));
        // Only an output's own virtual image has an output's physical image.
        assert forall|v: int, i: int| 0 <= v < v2p.len() && 0 <= i < nout && #[trigger] v2p[v] == Some(PhysicalImageId(i as usize))
            implies map[(#[trigger] graph.output_images@[i]).usage.0 as int] == Some(VirtualImageId(v as usize)) by {
            let u = graph.output_images@[i].usage;
            let vo = (map[u.0 as int]->0).0 as int;
            assert(v2p1[vo] == Some(PhysicalImageId(i as usize)));
            assert(v2p[vo] == v2p1[vo]);
            assert(!phys1[i].can_be_reused);
            assert(!phys[i].can_be_reused);
            assert(v2p[v] == v2p[vo]);
        }
    }

    // The physical image of each usage
    let nu = virtual_images.usage_to_virtual.len();
    let mut usage_to_physical: Vec<Option<PhysicalImageId>> = Vec::new();
    for u in 0..nu
        invariant
            nu == map.len(),
            map == virtual_images.usage_to_virtual@,
            virtual_ids_below_count(*virtual_images),
            v2p == virtual_to_physical@,
            v2p.len() == virtual_images.virtual_image_count,
            usage_to_physical@.len() == u,
            forall|i: int| 0 <= i < u ==> #[trigger] usage_to_physical@[i] == (if map[i] is Some {
                v2p[(map[i]->0).0 as int]
            } else {
                None
            }),
            forall|i: int| 0 <= i < u && (#[trigger] map[i]) is Some ==> usage_to_physical@[i] is Some,
            unplaced_virtuals_unused(*graph, *virtual_images, old(passes)@, v2p),
            passes@ == old(passes)@,
    {
        match virtual_images.usage_to_virtual[u] {
            Some(v) => match virtual_to_physical[v.0] {
                Some(p) => usage_to_physical.push(Some(p)),
                None => {
                    proof {
                        lemma_stray_usage_blocks(*graph, *image_constraints, *virtual_images, old(passes)@, v2p, u as int);
                    }
                    return Err(RenderGraphPlanError::UnassignedImage(RenderGraphImageUsageId(u)));
                },
            },
            None => usage_to_physical.push(None),
        }
    }

    // The specification of each physical image
    let mut specifications: Vec<RenderGraphImageSpecification> = Vec::new();
    let nphys = physical_images.len();
    for i in 0..nphys
        invariant
            nphys == phys.len(),
            phys == physical_images@,
            specifications@.len() == i,
            forall|j: int| 0 <= j < i ==> #[trigger] specifications@[j] == phys[j].specification,
    {
        specifications.push(physical_images[i].specification);
    }

    // The views the usages need, each listed once
    let mut image_views: Vec<RenderGraphImageView> = Vec::new();
    let mut usage_to_image_view: Vec<Option<PhysicalImageViewId>> = Vec::new();
    for u in 0..nu
        invariant
            graph.wf(),
            nu == map.len(),
            nu == graph.image_usages@.len(),
            usage_to_physical@.len() == nu,
            usage_to_image_view@.len() == u,
            image_views@.no_duplicates(),
            map == virtual_images.usage_to_virtual@,
            virtual_ids_below_count(*virtual_images),
            v2p.len() == virtual_images.virtual_image_count,
            forall|i: int| 0 <= i < nu ==> #[trigger] usage_to_physical@[i] == (if map[i] is Some {
                v2p[(map[i]->0).0 as int]
            } else {
                None
            }),
            forall|i: int| 0 <= i < u && (#[trigger] usage_to_physical@[i]) is Some
                ==> image_constraints.spec_specification(RenderGraphImageUsageId(i as usize)) is Some,
            passes@ == old(passes)@,
            forall|i: int| 0 <= i < u && (#[trigger] usage_to_physical@[i]) is Some ==> {
                &&& usage_to_image_view@[i] is Some
                &&& (usage_to_image_view@[i]->0).0 < image_views@.len()
                &&& image_views@[(usage_to_image_view@[i]->0).0 as int] == spec_view_for(*graph, *image_constraints, i, usage_to_physical@[i]->0)
            },
    {
        match usage_to_physical[u] {
            Some(p) => {
                let spec = match image_constraints.specification(RenderGraphImageUsageId(u)) {
                    Some(s) => s,
                    None => {
                        proof {
                            assert(usage_to_physical@[u as int] is Some);
                            lemma_stray_usage_blocks(*graph, *image_constraints, *virtual_images, old(passes)@, v2p, u as int);
                        }
                        return Err(RenderGraphPlanError::MissingSpecification(RenderGraphImageUsageId(u)));
                    },
                };
                let usage_info = &graph.image_usages[u];
                let view = RenderGraphImageView {
                    physical_image: p,
                    subresource_range: usage_info.subresource_range.into_subresource_range(&spec),
                    view_type: usage_info.view_type,
                };
                let nviews = image_views.len();
                let mut found: Option<usize> = None;
                let mut k: usize = 0;
                while k < nviews
                    invariant_except_break
                        found is None,
                    invariant
                        nviews == image_views@.len(),
                        k <= nviews,
                        forall|j: int| 0 <= j < k ==> image_views@[j] != view,
                    ensures
                        found is Some ==> (found->0) < nviews && image_views@[found->0 as int] == view,
                        found is None ==> forall|j: int| 0 <= j < nviews ==> image_views@[j] != view,
                    decreases nviews - k,
                {
                    if image_views[k] == view {
                        found = Some(k);
                        break;
                    }
                    k = k + 1;
                }
                let id = match found {
                    Some(k) => k,
                    None => {
                        let ghost before = image_views@;
                        image_views.push(view);
                        proof {
                            assert forall|a: int, b: int| 0 <= a < image_views@.len() && 0 <= b < image_views@.len() && a != b implies image_views@[a] != image_views@[b] by {
                                if a < before.len() && b < before.len() {
                                    assert(image_views@[a] == before[a] && image_views@[b] == before[b]);
                                } else if a < before.len() {
                                    assert(image_views@[a] == before[a]);
                                } else {
                                    assert(image_views@[b] == before[b]);
                                }
                            }
                        }
                        nviews
                    },
                };
                usage_to_image_view.push(Some(PhysicalImageViewId(id)));
                proof {
                    assert(view == spec_view_for(*graph, *image_constraints, u as int, p));
                }
            },
            None => usage_to_image_view.push(None),
        }
    }

    // Record the physical image and view of every attachment
    proof {
        assert forall|u: int| 0 <= u < nu && (#[trigger] map[u]) is Some implies v2p[(map[u]->0).0 as int] is Some && usage_to_image_view@[u] is Some by {
            assert(usage_to_physical@[u] is Some);
        }
    }
    let ghost passes0 = passes@;
    let npasses = passes.len();
    for k in 0..npasses
        invariant
            npasses == passes0.len(),
            passes@.len() == npasses,
            passes0 == old(passes)@,
            attachments_assigned(*virtual_images, passes0),
            virtual_ids_below_count(*virtual_images),
            virtual_images.usage_to_virtual@.len() == nu,
            v2p == virtual_to_physical@,
            v2p.len() == virtual_images.virtual_image_count,
            usage_to_image_view@.len() == nu,
            map == virtual_images.usage_to_virtual@,
            forall|u: int| 0 <= u < nu && (#[trigger] map[u]) is Some ==> v2p[(map[u]->0).0 as int] is Some && usage_to_image_view@[u] is Some,
            forall|kk: int| k <= kk < npasses ==> #[trigger] passes@[kk] == passes0[kk],
            forall|kk: int| 0 <= kk < k ==> {
                let p1 = #[trigger] passes@[kk];
                let p0 = passes0[kk];
                &&& p1.subpasses == p0.subpasses
                &&& p1.extents == p0.extents
                &&& p1.pre_pass_barrier == p0.pre_pass_barrier
                &&& p1.attachments@.len() == p0.attachments@.len()
                &&& forall|j: int| 0 <= j < p0.attachments@.len() ==> {
                    let a0 = p0.attachments@[j];
                    #[trigger] p1.attachments@[j] == (crate::passes::RenderGraphPassAttachment {
                        image: v2p[a0.virtual_image.0 as int],
                        image_view: usage_to_image_view@[a0.usage.0 as int],
                        ..a0
                    })
                }
            },
    {
        let mut pass = RenderGraphPass { attachments: Vec::new(), subpasses: Vec::new(), extents: None, pre_pass_barrier: None };
        passes.set_and_swap(k, &mut pass);
        let ghost p0 = pass;
        let natt = pass.attachments.len();
        for j in 0..natt
            invariant
                natt == p0.attachments@.len(),
                p0 == passes0[k as int],
                k < passes0.len(),
                attachments_assigned(*virtual_images, passes0),
                virtual_ids_below_count(*virtual_images),
                virtual_images.usage_to_virtual@.len() == nu,
                v2p == virtual_to_physical@,
                v2p.len() == virtual_images.virtual_image_count,
                usage_to_image_view@.len() == nu,
                map == virtual_images.usage_to_virtual@,
                forall|u: int| 0 <= u < nu && (#[trigger] map[u]) is Some ==> v2p[(map[u]->0).0 as int] is Some && usage_to_image_view@[u] is Some,
                pass.subpasses == p0.subpasses,
                pass.extents == p0.extents,
                pass.pre_pass_barrier == p0.pre_pass_barrier,
                pass.attachments@.len() == natt,
                forall|jj: int| j <= jj < natt ==> #[trigger] pass.attachments@[jj] == p0.attachments@[jj],
                forall|jj: int| 0 <= jj < j ==> {
                    let a0 = p0.attachments@[jj];
                    #[trigger] pass.attachments@[jj] == (crate::passes::RenderGraphPassAttachment {
                        image: v2p[a0.virtual_image.0 as int],
                        image_view: usage_to_image_view@[a0.usage.0 as int],
                        ..a0
                    })
                },
        {
            let a = pass.attachments[j];
            proof {
                assert(passes0[k as int].attachments@[j as int] == a);
            }
            proof {
                assert(map[a.usage.0 as int] == Some(a.virtual_image));
            }
            let image = virtual_to_physical[a.virtual_image.0];
            let image_view = usage_to_image_view[a.usage.0];
            if image.is_none() || image_view.is_none() {
                return Err(RenderGraphPlanError::UnassignedImage(a.usage));
            }
            pass.attachments.set(j, crate::passes::RenderGraphPassAttachment { image, image_view, ..a });
        }
        passes.set(k, pass);
    }

    proof {
        // No physical image beyond the outputs is exclusive to one virtual image
        assert forall|p: int| nout <= p < phys.len() implies (#[trigger] phys[p]).can_be_reused by {
            if p < phys1.len() {
                assert(phys1[p].can_be_reused == phys[p].can_be_reused);
            }
        }
        // Spans of passes of virtual images that share a physical image are ordered
        assert forall|v1: int, v2: int|
            0 <= v1 < v2p.len() && 0 <= v2 < v2p.len() && v1 != v2 && (#[trigger] v2p[v1]) is Some && #[trigger] v2p[v2] == v2p[v1] implies
            (forall|k1: int, k2: int| #[trigger] pass_uses_virtual(*graph, *virtual_images, passes0, k1, VirtualImageId(v1 as usize))
                && #[trigger] pass_uses_virtual(*graph, *virtual_images, passes0, k2, VirtualImageId(v2 as usize)) ==> k1 < k2)
            || (forall|k1: int, k2: int| #[trigger] pass_uses_virtual(*graph, *virtual_images, passes0, k1, VirtualImageId(v1 as usize))
                && #[trigger] pass_uses_virtual(*graph, *virtual_images, passes0, k2, VirtualImageId(v2 as usize)) ==> k2 < k1) by {
            let r1 = reqs@[lk[v1]->0 as int];
            let r2 = reqs@[lk[v2]->0 as int];
            assert(phys[(v2p[v1]->0).0 as int].can_be_reused);
            assert forall|k: int| #[trigger] pass_uses_virtual(*graph, *virtual_images, passes0, k, VirtualImageId(v1 as usize)) implies r1.first_node_pass_index <= k <= r1.last_node_pass_index by {
                let u = choose|u: RenderGraphImageUsageId|
                    0 <= k < passes0.len() && passes0[k].subpasses@.len() > 0 && #[trigger] node_uses(graph.spec_node(passes0[k].subpasses@[0].node), u)
                        && u.0 < virtual_images.usage_to_virtual@.len() && virtual_images.usage_to_virtual@[u.0 as int] == Some(VirtualImageId(v1 as usize));
                assert(covered(*virtual_images, reqs@, lk, u, k));
            }
            assert forall|k: int| #[trigger] pass_uses_virtual(*graph, *virtual_images, passes0, k, VirtualImageId(v2 as usize)) implies r2.first_node_pass_index <= k <= r2.last_node_pass_index by {
                let u = choose|u: RenderGraphImageUsageId|
                    0 <= k < passes0.len() && passes0[k].subpasses@.len() > 0 && #[trigger] node_uses(graph.spec_node(passes0[k].subpasses@[0].node), u)
                        && u.0 < virtual_images.usage_to_virtual@.len() && virtual_images.usage_to_virtual@[u.0 as int] == Some(VirtualImageId(v2 as usize));
                assert(covered(*virtual_images, reqs@, lk, u, k));
            }
        }
        // Shared physical images can hold their usages
        assert forall|u: int| 0 <= u < map.len() && (#[trigger] usage_to_physical@[u]) is Some && (usage_to_physical@[u]->0).0 >= nout implies {
            let s = image_constraints.spec_specification(RenderGraphImageUsageId(u as usize));
            &&& s is Some
            &&& specifications@[(usage_to_physical@[u]->0).0 as int].spec_can_merge(s->0)
            &&& specifications@[(usage_to_physical@[u]->0).0 as int].spec_has_flags_of(s->0)
        } by {
            let v = (map[u]->0).0 as int;
            let p = (v2p[v]->0).0 as int;
            assert(phys[p].can_be_reused);
            let req = reqs@[lk[v]->0 as int];
            assert(reqs@[lk[v]->0 as int].virtual_id.0 == v);
            let u2 = choose|u2: RenderGraphImageUsageId| u2.0 < virtual_images.usage_to_virtual@.len() && #[trigger] virtual_images.usage_to_virtual@[u2.0 as int] == Some(req.virtual_id) && image_constraints.spec_specification(u2) == Some(req.specification);
            assert(map[u2.0 as int] == map[u]);
        }
        // Every flag of a shared physical image is needed by a usage placed on it
        assert forall|p: int, b: u32| nout <= p < specifications@.len() && b < 96 && #[trigger] spec_flag_bit(specifications@[p], b)
            implies usage_with_bit(*image_constraints, usage_to_physical@, p, b) by {
            assert(phys[p].can_be_reused);
            assert(specifications@[p] == phys[p].specification);
            assert(spec_flag_bit(phys[p].specification, b));
            assert(placed_with_bit(reqs@, lk, v2p, p, b));
            let v = choose|v: int| 0 <= v < v2p.len() && v2p[v] == Some(PhysicalImageId(p as usize)) && v < lk.len() && lk[v] is Some
                && (lk[v]->0) < reqs@.len() && #[trigger] spec_flag_bit(reqs@[lk[v]->0 as int].specification, b);
            let req = reqs@[lk[v]->0 as int];
            assert(req.virtual_id.0 == v);
            let u2 = choose|u2: RenderGraphImageUsageId| u2.0 < virtual_images.usage_to_virtual@.len() && #[trigger] virtual_images.usage_to_virtual@[u2.0 as int] == Some(req.virtual_id) && image_constraints.spec_specification(u2) == Some(req.specification);
            assert(usage_to_physical@[u2.0 as int] == Some(PhysicalImageId(p as usize)));
            assert(RenderGraphImageUsageId(u2.0 as usize) == u2);
            assert(spec_flag_bit(image_constraints.spec_specification(RenderGraphImageUsageId(u2.0 as usize))->0, b));
        }
        // Outputs keep their images and specifications
        assert forall|i: int| 0 <= i < nout implies {
            let u = (#[trigger] graph.output_images@[i]).usage;
            &&& map[u.0 as int] is Some
            &&& v2p[(map[u.0 as int]->0).0 as int] == Some(PhysicalImageId(i as usize))
            &&& specifications@[i] == graph.output_images@[i].specification
        } by {
            assert(!phys1[i].can_be_reused);
            assert(phys[i] == phys1[i]);
        }
        // The inputs were assignable
        reveal(physical_images_assignable);
        let outs = graph.output_images@;
        assert forall|u: int| 0 <= u < map.len() && (#[trigger] map[u]) is Some implies {
            &&& image_constraints.spec_specification(RenderGraphImageUsageId(u as usize)) is Some
            &&& (exists|k: int| #[trigger] pass_uses_virtual(*graph, *virtual_images, passes0, k, map[u]->0))
                || (exists|i: int| 0 <= i < outs.len() && map[(#[trigger] outs[i]).usage.0 as int] == map[u])
        } by {
            assert(usage_to_physical@[u] is Some);
            let v = (map[u]->0).0 as int;
            let p = (v2p[v]->0).0 as int;
            if phys[p].can_be_reused {
                assert(lk[v] is Some);
                assert(VirtualImageId(v as usize) == map[u]->0);
            } else {
                assert(p < nout);
                let w = (map[outs[p].usage.0 as int]->0).0 as int;
                assert(v2p[w] == Some(PhysicalImageId(p as usize)));
                assert(v == w);
            }
        }
        assert forall|k: int, u: RenderGraphImageUsageId| 0 <= k < passes0.len() && #[trigger] node_uses(graph.spec_node(passes0[k].subpasses@[0].node), u)
            implies !usage_unplaceable(*virtual_images, *image_constraints, u) by {
            assert(covered(*virtual_images, reqs@, lk, u, k));
            assert(map[u.0 as int] is Some);
        }
        assert forall|i: int, j: int| 0 <= i < j < outs.len() implies map[(#[trigger] outs[i]).usage.0 as int] != map[(#[trigger] outs[j]).usage.0 as int] by {
            assert(v2p[(map[outs[i].usage.0 as int]->0).0 as int] == Some(PhysicalImageId(i as usize)));
            assert(v2p[(map[outs[j].usage.0 as int]->0).0 as int] == Some(PhysicalImageId(j as usize)));
        }
        assert(physical_images_assignable(*graph, *image_constraints, *virtual_images, passes0));
    }
    Ok(AssignPhysicalImagesResult {
        usage_to_physical,
        usage_to_image_view,
        image_views,
        virtual_to_physical,
        specifications,
    })
}
} // verus!
