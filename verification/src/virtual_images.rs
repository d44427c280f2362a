use vstd::prelude::*;
use crate::image_spec::RenderGraphImageSpecification;
use crate::graph::{RenderGraphBuilder, RenderGraphNode, RenderGraphNodeId, RenderGraphImageUsageId, VirtualImageId};
use crate::constraints::DetermineImageConstraintsResult;
use crate::plan_error::RenderGraphPlanError;

verus! {

/// The virtual image of each usage, indexed by usage id. Usages that share a virtual image
/// share the same image during execution.
pub struct AssignVirtualImagesResult {
    pub usage_to_virtual: Vec<Option<VirtualImageId>>,
    pub virtual_image_count: usize,
}

/// Every reader of the version `w` writes either has no specification (its node was culled)
/// or wants exactly what is written, and each reader with a specification was given an image.
pub open spec fn readers_share(
    g: RenderGraphBuilder,
    res: DetermineImageConstraintsResult,
    map: Seq<Option<VirtualImageId>>,
    w: RenderGraphImageUsageId,
) -> bool {
    forall|j: int| 0 <= j < g.spec_version_info(w).read_usages@.len() ==> {
        let r = #[trigger] g.spec_version_info(w).read_usages@[j];
        &&& (res.spec_specification(r) is None || res.spec_specification(r) == res.spec_specification(w))
        &&& (res.spec_specification(r) is Some ==> map[r.0 as int] is Some)
    }
}

/// The images a node creates or modifies were given virtual images, which their readers share.
pub open spec fn node_assigned(
    g: RenderGraphBuilder,
    res: DetermineImageConstraintsResult,
    map: Seq<Option<VirtualImageId>>,
    id: RenderGraphNodeId,
) -> bool {
    let node = g.spec_node(id);
    &&& forall|i: int| 0 <= i < node.image_creates@.len() ==> {
        let w = (#[trigger] node.image_creates@[i]).image;
        &&& map[w.0 as int] is Some
        &&& readers_share(g, res, map, w)
    }
    &&& forall|i: int| 0 <= i < node.image_modifies@.len() ==> {
        let w = (#[trigger] node.image_modifies@[i]).output;
        &&& map[w.0 as int] is Some
        &&& readers_share(g, res, map, w)
    }
}

/// Usages mapped to the same virtual image have the same specification, namely the one
/// recorded for that image in `vspec`.
pub open spec fn virtual_specs_agree(
    res: DetermineImageConstraintsResult,
    map: Seq<Option<VirtualImageId>>,
    vspec: Seq<Option<RenderGraphImageSpecification>>,
) -> bool {
    forall|u: int| 0 <= u < map.len() && (#[trigger] map[u]) is Some ==> {
        &&& (map[u]->0).0 < vspec.len()
        &&& res.spec_specification(RenderGraphImageUsageId(u as usize)) == vspec[(map[u]->0).0 as int]
    }
}

/// The readers `0..j` of the version written at `w` take its virtual image `wv` one by one:
/// a reader without a specification is skipped, one with the written specification shares the
/// image (it must not have one yet), and one with another specification fails.
pub open spec fn spec_share_readers(
    g: RenderGraphBuilder,
    res: DetermineImageConstraintsResult,
    m: Seq<Option<VirtualImageId>>,
    w: RenderGraphImageUsageId,
    wv: VirtualImageId,
    ws: RenderGraphImageSpecification,
    j: nat,
) -> Result<Seq<Option<VirtualImageId>>, RenderGraphPlanError>
    decreases j,
{
    if j == 0 {
        Ok(m)
    } else {
        match spec_share_readers(g, res, m, w, wv, ws, (j - 1) as nat) {
            Err(e) => Err(e),
            Ok(m1) => {
                let r = g.spec_version_info(w).read_usages@[j - 1];
                match res.spec_specification(r) {
                    None => Ok(m1),
                    Some(us) => if ws == us {
                        if m1[r.0 as int] is Some {
                            Err(RenderGraphPlanError::ConflictingImageAssignment(r))
                        } else {
                            Ok(m1.update(r.0 as int, Some(wv)))
                        }
                    } else {
                        Err(RenderGraphPlanError::IncompatibleImageSharing(r))
                    },
                }
            },
        }
    }
}

/// The readers of the version written at `w` share its virtual image.
pub open spec fn spec_share_written(
    g: RenderGraphBuilder,
    res: DetermineImageConstraintsResult,
    m: Seq<Option<VirtualImageId>>,
    w: RenderGraphImageUsageId,
) -> Result<Seq<Option<VirtualImageId>>, RenderGraphPlanError> {
    match m[w.0 as int] {
        None => Err(RenderGraphPlanError::UnassignedImage(w)),
        Some(wv) => match res.spec_specification(w) {
            None => Err(RenderGraphPlanError::MissingSpecification(w)),
            Some(ws) => spec_share_readers(g, res, m, w, wv, ws, g.spec_version_info(w).read_usages@.len()),
        },
    }
}

/// The images `ws[0..i]` are shared with their readers in turn.
pub open spec fn spec_share_all(
    g: RenderGraphBuilder,
    res: DetermineImageConstraintsResult,
    m: Seq<Option<VirtualImageId>>,
    ws: Seq<RenderGraphImageUsageId>,
    i: nat,
) -> Result<Seq<Option<VirtualImageId>>, RenderGraphPlanError>
    decreases i,
{
    if i == 0 {
        Ok(m)
    } else {
        match spec_share_all(g, res, m, ws, (i - 1) as nat) {
            Err(e) => Err(e),
            Ok(m1) => spec_share_written(g, res, m1, ws[i - 1]),
        }
    }
}

/// The first `i` images the node creates each get a new virtual image, numbered from `next`.
pub open spec fn spec_creates(
    node: RenderGraphNode,
    m: Seq<Option<VirtualImageId>>,
    next: nat,
    i: nat,
) -> Result<(Seq<Option<VirtualImageId>>, nat), RenderGraphPlanError>
    decreases i,
{
    if i == 0 {
        Ok((m, next))
    } else {
        match spec_creates(node, m, next, (i - 1) as nat) {
            Err(e) => Err(e),
            Ok((m1, n1)) => if n1 == usize::MAX {
                Err(RenderGraphPlanError::TooManyImageUsages)
            } else {
                Ok((m1.update(node.image_creates@[i - 1].image.0 as int, Some(VirtualImageId(n1 as usize))), (n1 + 1) as nat))
            },
        }
    }
}

/// The first `i` modifies of the node pass the virtual image of their input on to their
/// output; input and output must have the same specification.
pub open spec fn spec_modifies(
    node: RenderGraphNode,
    res: DetermineImageConstraintsResult,
    m: Seq<Option<VirtualImageId>>,
    i: nat,
) -> Result<Seq<Option<VirtualImageId>>, RenderGraphPlanError>
    decreases i,
{
    if i == 0 {
        Ok(m)
    } else {
        match spec_modifies(node, res, m, (i - 1) as nat) {
            Err(e) => Err(e),
            Ok(m1) => {
                let md = node.image_modifies@[i - 1];
                if res.spec_specification(md.input) != res.spec_specification(md.output) {
                    Err(RenderGraphPlanError::ModifySpecificationMismatch(md.output))
                } else {
                    match m1[md.input.0 as int] {
                        None => Err(RenderGraphPlanError::UnassignedImage(md.input)),
                        Some(v) => Ok(m1.update(md.output.0 as int, Some(v))),
                    }
                }
            },
        }
    }
}

/// The images a node writes: those it creates, then the outputs of its modifies.
pub open spec fn node_written_images(node: RenderGraphNode) -> Seq<RenderGraphImageUsageId> {
    node.image_creates@.map_values(|c: crate::graph::RenderGraphImageCreate| c.image)
        + node.image_modifies@.map_values(|md: crate::graph::RenderGraphImageModify| md.output)
}

/// One node's step: its creates, its modifies, then sharing every image it writes.
pub open spec fn spec_assign_node(
    g: RenderGraphBuilder,
    res: DetermineImageConstraintsResult,
    node: RenderGraphNode,
    m: Seq<Option<VirtualImageId>>,
    next: nat,
) -> Result<(Seq<Option<VirtualImageId>>, nat), RenderGraphPlanError> {
    match spec_creates(node, m, next, node.image_creates@.len()) {
        Err(e) => Err(e),
        Ok((m1, n1)) => match spec_modifies(node, res, m1, node.image_modifies@.len()) {
            Err(e) => Err(e),
            Ok(m2) => match spec_share_all(g, res, m2, node_written_images(node), node_written_images(node).len()) {
                Err(e) => Err(e),
                Ok(m3) => Ok((m3, n1)),
            },
        },
    }
}

/// The virtual image of every usage and the number of virtual images after the first `i`
/// nodes of `order`, or the first failure.
pub open spec fn spec_assign_virtual(
    g: RenderGraphBuilder,
    res: DetermineImageConstraintsResult,
    order: Seq<RenderGraphNodeId>,
    i: nat,
) -> Result<(Seq<Option<VirtualImageId>>, nat), RenderGraphPlanError>
    decreases i,
{
    if i == 0 {
        Ok((Seq::new(g.image_usages@.len(), |u: int| None::<VirtualImageId>), 0))
    } else {
        match spec_assign_virtual(g, res, order, (i - 1) as nat) {
            Err(e) => Err(e),
            Ok((m, n)) => spec_assign_node(g, res, g.spec_node(order[i - 1]), m, n),
        }
    }
}

proof fn lemma_share_readers_stays_err(
    g: RenderGraphBuilder,
    res: DetermineImageConstraintsResult,
    m: Seq<Option<VirtualImageId>>,
    w: RenderGraphImageUsageId,
    wv: VirtualImageId,
    ws: RenderGraphImageSpecification,
    i: nat,
    j: nat,
    e: RenderGraphPlanError,
)
    requires
        i <= j,
        spec_share_readers(g, res, m, w, wv, ws, i) == Err::<Seq<Option<VirtualImageId>>, RenderGraphPlanError>(e),
    ensures
        spec_share_readers(g, res, m, w, wv, ws, j) == Err::<Seq<Option<VirtualImageId>>, RenderGraphPlanError>(e),
    decreases j - i,
{
    if i < j {
        lemma_share_readers_stays_err(g, res, m, w, wv, ws, i, (j - 1) as nat, e);
    }
}

proof fn lemma_share_all_stays_err(
    g: RenderGraphBuilder,
    res: DetermineImageConstraintsResult,
    m: Seq<Option<VirtualImageId>>,
    ws: Seq<RenderGraphImageUsageId>,
    i: nat,
    j: nat,
    e: RenderGraphPlanError,
)
    requires
        i <= j,
        spec_share_all(g, res, m, ws, i) == Err::<Seq<Option<VirtualImageId>>, RenderGraphPlanError>(e),
    ensures
        spec_share_all(g, res, m, ws, j) == Err::<Seq<Option<VirtualImageId>>, RenderGraphPlanError>(e),
    decreases j - i,
{
    if i < j {
        lemma_share_all_stays_err(g, res, m, ws, i, (j - 1) as nat, e);
    }
}

proof fn lemma_creates_stays_err(
    node: RenderGraphNode,
    m: Seq<Option<VirtualImageId>>,
    next: nat,
    i: nat,
    j: nat,
    e: RenderGraphPlanError,
)
    requires
        i <= j,
        spec_creates(node, m, next, i) == Err::<(Seq<Option<VirtualImageId>>, nat), RenderGraphPlanError>(e),
    ensures
        spec_creates(node, m, next, j) == Err::<(Seq<Option<VirtualImageId>>, nat), RenderGraphPlanError>(e),
    decreases j - i,
{
    if i < j {
        lemma_creates_stays_err(node, m, next, i, (j - 1) as nat, e);
    }
}

proof fn lemma_modifies_stays_err(
    node: RenderGraphNode,
    res: DetermineImageConstraintsResult,
    m: Seq<Option<VirtualImageId>>,
    i: nat,
    j: nat,
    e: RenderGraphPlanError,
)
    requires
        i <= j,
        spec_modifies(node, res, m, i) == Err::<Seq<Option<VirtualImageId>>, RenderGraphPlanError>(e),
    ensures
        spec_modifies(node, res, m, j) == Err::<Seq<Option<VirtualImageId>>, RenderGraphPlanError>(e),
    decreases j - i,
{
    if i < j {
        lemma_modifies_stays_err(node, res, m, i, (j - 1) as nat, e);
    }
}

proof fn lemma_assign_virtual_stays_err(
    g: RenderGraphBuilder,
    res: DetermineImageConstraintsResult,
    order: Seq<RenderGraphNodeId>,
    i: nat,
    j: nat,
    e: RenderGraphPlanError,
)
    requires
        i <= j,
        spec_assign_virtual(g, res, order, i) == Err::<(Seq<Option<VirtualImageId>>, nat), RenderGraphPlanError>(e),
    ensures
        spec_assign_virtual(g, res, order, j) == Err::<(Seq<Option<VirtualImageId>>, nat), RenderGraphPlanError>(e),
    decreases j - i,
{
    if i < j {
        lemma_assign_virtual_stays_err(g, res, order, i, (j - 1) as nat, e);
    }
}

/// A failing node step fails the whole assignment with the same error.
proof fn lemma_node_err_fails_all(
    g: RenderGraphBuilder,
    res: DetermineImageConstraintsResult,
    order: Seq<RenderGraphNodeId>,
    oi: nat,
    m: Seq<Option<VirtualImageId>>,
    next: nat,
    e: RenderGraphPlanError,
)
    requires
        oi < order.len(),
        spec_assign_virtual(g, res, order, oi) == Ok::<(Seq<Option<VirtualImageId>>, nat), RenderGraphPlanError>((m, next)),
        spec_assign_node(g, res, g.spec_node(order[oi as int]), m, next) == Err::<(Seq<Option<VirtualImageId>>, nat), RenderGraphPlanError>(e),
    ensures
        spec_assign_virtual(g, res, order, order.len()) == Err::<(Seq<Option<VirtualImageId>>, nat), RenderGraphPlanError>(e),
{
    assert(spec_assign_virtual(g, res, order, oi + 1) == Err::<(Seq<Option<VirtualImageId>>, nat), RenderGraphPlanError>(e));
    lemma_assign_virtual_stays_err(g, res, order, oi + 1, order.len(), e);
}

proof fn lemma_node_assigned_grows(
    g: RenderGraphBuilder,
    res: DetermineImageConstraintsResult,
    m1: Seq<Option<VirtualImageId>>,
    m2: Seq<Option<VirtualImageId>>,
    id: RenderGraphNodeId,
)
    requires
        m1.len() == m2.len(),
        m1.len() == g.image_usages@.len(),
        forall|u: int| 0 <= u < m1.len() && #[trigger] m1[u] is Some ==> m2[u] is Some,
        node_assigned(g, res, m1, id),
        g.wf(),
        id.0 < g.nodes@.len(),
    ensures
        node_assigned(g, res, m2, id),
{
    let node = g.spec_node(id);
    assert(node.usages_below(g.image_usages@.len()));
    assert forall|i: int| 0 <= i < node.image_creates@.len() implies {
        let w = (#[trigger] node.image_creates@[i]).image;
        &&& m2[w.0 as int] is Some
        &&& readers_share(g, res, m2, w)
    } by {
        let w = node.image_creates@[i].image;
        assert(m1[w.0 as int] is Some);
        assert(readers_share(g, res, m1, w));
        g.lemma_usage_wf(w);
        assert forall|j: int| 0 <= j < g.spec_version_info(w).read_usages@.len() implies {
            let r = #[trigger] g.spec_version_info(w).read_usages@[j];
            &&& (res.spec_specification(r) is None || res.spec_specification(r) == res.spec_specification(w))
            &&& (res.spec_specification(r) is Some ==> m2[r.0 as int] is Some)
        } by {
            let r = g.spec_version_info(w).read_usages@[j];
            if res.spec_specification(r) is Some {
                assert(m1[r.0 as int] is Some);
            }
        }
    }
    assert forall|i: int| 0 <= i < node.image_modifies@.len() implies {
        let w = (#[trigger] node.image_modifies@[i]).output;
        &&& m2[w.0 as int] is Some
        &&& readers_share(g, res, m2, w)
    } by {
        let w = node.image_modifies@[i].output;
        assert(m1[w.0 as int] is Some);
        assert(readers_share(g, res, m1, w));
        g.lemma_usage_wf(w);
        assert forall|j: int| 0 <= j < g.spec_version_info(w).read_usages@.len() implies {
            let r = #[trigger] g.spec_version_info(w).read_usages@[j];
            &&& (res.spec_specification(r) is None || res.spec_specification(r) == res.spec_specification(w))
            &&& (res.spec_specification(r) is Some ==> m2[r.0 as int] is Some)
        } by {
            let r = g.spec_version_info(w).read_usages@[j];
            if res.spec_specification(r) is Some {
                assert(m1[r.0 as int] is Some);
            }
        }
    }
}

/// Shares the image written at `written_image` with each of its readers that wants the same
/// specification.
#[verifier::loop_isolation(false)]
fn share_written_image(
    graph: &RenderGraphBuilder,
    results: &DetermineImageConstraintsResult,
    map: &mut Vec<Option<VirtualImageId>>,
    written_image: RenderGraphImageUsageId,
    Ghost(vspec): Ghost<Seq<Option<RenderGraphImageSpecification>>>,
) -> (r: Result<(), RenderGraphPlanError>)
    requires
        graph.wf(),
        written_image.0 < graph.image_usages@.len(),
        old(map)@.len() == graph.image_usages@.len(),
        old(map)@[written_image.0 as int] is Some,
        virtual_specs_agree(*results, old(map)@, vspec),
    ensures
        final(map)@.len() == old(map)@.len(),
        forall|u: int| 0 <= u < old(map)@.len() && #[trigger] old(map)@[u] is Some ==> final(map)@[u] == old(map)@[u],
        virtual_specs_agree(*results, final(map)@, vspec),
        r is Ok ==> readers_share(*graph, *results, final(map)@, written_image),
        match r {
            Ok(_) => spec_share_written(*graph, *results, old(map)@, written_image) == Ok::<Seq<Option<VirtualImageId>>, RenderGraphPlanError>(final(map)@),
            Err(e) => spec_share_written(*graph, *results, old(map)@, written_image) == Err::<Seq<Option<VirtualImageId>>, RenderGraphPlanError>(e),
        },
{
    let version = graph.image_version_info(written_image);
    proof {
        graph.lemma_usage_wf(written_image);
    }
    let write_virtual_image = match map[written_image.0] {
        Some(v) => v,
        None => {
            return Err(RenderGraphPlanError::UnassignedImage(written_image));
        },
    };
    let written_spec = match results.specification(written_image) {
        Some(s) => s,
        None => {
            return Err(RenderGraphPlanError::MissingSpecification(written_image));
        },
    };
    let ghost m0 = map@;
    let nreads = version.read_usages.len();
    for k in 0..nreads
        invariant
            graph.wf(),
            *version == graph.spec_version_info(written_image),
            graph.version_info_wf(*version),
            nreads == version.read_usages@.len(),
            map@.len() == graph.image_usages@.len(),
            map@[written_image.0 as int] == Some(write_virtual_image),
            results.spec_specification(written_image) == Some(written_spec),
            forall|u: int| 0 <= u < m0.len() && #[trigger] m0[u] is Some ==> map@[u] == m0[u],
            virtual_specs_agree(*results, map@, vspec),
            forall|j: int| 0 <= j < k ==> {
                let r = #[trigger] version.read_usages@[j];
                &&& (results.spec_specification(r) is None || results.spec_specification(r) == results.spec_specification(written_image))
                &&& (results.spec_specification(r) is Some ==> map@[r.0 as int] is Some)
            },
            m0[written_image.0 as int] == Some(write_virtual_image),
            spec_share_readers(*graph, *results, m0, written_image, write_virtual_image, written_spec, k as nat)
                == Ok::<Seq<Option<VirtualImageId>>, RenderGraphPlanError>(map@),
    {
        let read_usage = version.read_usages[k];
        let ghost mk = map@;
        match results.specification(read_usage) {
            None => {},
            Some(usage_spec) => {
                if written_spec == usage_spec {
                    if map[read_usage.0].is_some() {
                        proof {
                            lemma_share_readers_stays_err(*graph, *results, m0, written_image, write_virtual_image, written_spec,
                                (k + 1) as nat, nreads as nat, RenderGraphPlanError::ConflictingImageAssignment(read_usage));
                        }
                        return Err(RenderGraphPlanError::ConflictingImageAssignment(read_usage));
                    }
                    map.set(read_usage.0, Some(write_virtual_image));
                    proof {
                        assert forall|u: int| 0 <= u < map@.len() && (#[trigger] map@[u]) is Some implies {
                            &&& (map@[u]->0).0 < vspec.len()
                            &&& results.spec_specification(RenderGraphImageUsageId(u as usize)) == vspec[(map@[u]->0).0 as int]
                        } by {
                            if u == read_usage.0 {
                                assert(map@[written_image.0 as int] is Some);
                            }
                        }
                    }
                } else {
                    proof {
                        lemma_share_readers_stays_err(*graph, *results, m0, written_image, write_virtual_image, written_spec,
                            (k + 1) as nat, nreads as nat, RenderGraphPlanError::IncompatibleImageSharing(read_usage));
                    }
                    return Err(RenderGraphPlanError::IncompatibleImageSharing(read_usage));
                }
            },
        }
    }
    Ok(())
}

/// Gives every image a node creates a new virtual image, passes the virtual image of a
/// modified image on to the version the modify writes, and lets each reader share the virtual
/// image of the version it reads. The graph must not be one where the planner would have to
/// copy an image: a reader that wants another specification than is written, or a modify whose
/// input and output specifications differ.
pub fn assign_virtual_images(
    graph: &RenderGraphBuilder,
    node_execution_order: &Vec<RenderGraphNodeId>,
    results: &DetermineImageConstraintsResult,
) -> (r: AssignVirtualImagesResult)
    requires
        graph.wf(),
        forall|k: int| 0 <= k < node_execution_order@.len() ==> (#[trigger] node_execution_order@[k]).0 < graph.nodes@.len(),
        spec_assign_virtual(*graph, *results, node_execution_order@, node_execution_order@.len()) is Ok,
    ensures
        ({
            let m = r.usage_to_virtual@;
            &&& m.len() == graph.image_usages@.len()
            &&& forall|u: int| 0 <= u < m.len() && (#[trigger] m[u]) is Some ==> (m[u]->0).0 < r.virtual_image_count
            &&& forall|k: int| 0 <= k < node_execution_order@.len() ==> node_assigned(*graph, *results, m, #[trigger] node_execution_order@[k])
            &&& forall|u1: int, u2: int|
                0 <= u1 < m.len() && 0 <= u2 < m.len() && (#[trigger] m[u1]) is Some && #[trigger] m[u2] == m[u1]
                ==> results.spec_specification(RenderGraphImageUsageId(u1 as usize)) == results.spec_specification(RenderGraphImageUsageId(u2 as usize))
        }),
        spec_assign_virtual(*graph, *results, node_execution_order@, node_execution_order@.len())
            == Ok::<(Seq<Option<VirtualImageId>>, nat), RenderGraphPlanError>((r.usage_to_virtual@, r.virtual_image_count as nat)),
{
    match try_assign_virtual_images(graph, node_execution_order, results) {
        Ok(res) => res,
        Err(_) => {
            proof {
                assert(false);
            }
            AssignVirtualImagesResult { usage_to_virtual: Vec::new(), virtual_image_count: 0 }
        },
    }
}

/// The virtual images as `assign_virtual_images` gives them, or, where the planner would have
/// to copy an image, which usage needs the copy.
pub fn try_assign_virtual_images(
    graph: &RenderGraphBuilder,
    node_execution_order: &Vec<RenderGraphNodeId>,
    results: &DetermineImageConstraintsResult,
) -> (r: Result<AssignVirtualImagesResult, RenderGraphPlanError>)
    requires
        graph.wf(),
        forall|k: int| 0 <= k < node_execution_order@.len() ==> (#[trigger] node_execution_order@[k]).0 < graph.nodes@.len(),
    ensures
        r is Ok ==> {
            let m = r->Ok_0.usage_to_virtual@;
            &&& m.len() == graph.image_usages@.len()
            &&& forall|u: int| 0 <= u < m.len() && (#[trigger] m[u]) is Some ==> (m[u]->0).0 < r->Ok_0.virtual_image_count
            &&& forall|k: int| 0 <= k < node_execution_order@.len() ==> node_assigned(*graph, *results, m, #[trigger] node_execution_order@[k])
            &&& forall|u1: int, u2: int|
                0 <= u1 < m.len() && 0 <= u2 < m.len() && (#[trigger] m[u1]) is Some && #[trigger] m[u2] == m[u1]
                ==> results.spec_specification(RenderGraphImageUsageId(u1 as usize)) == results.spec_specification(RenderGraphImageUsageId(u2 as usize))
        },
        match r {
            Ok(res) => spec_assign_virtual(*graph, *results, node_execution_order@, node_execution_order@.len())
                == Ok::<(Seq<Option<VirtualImageId>>, nat), RenderGraphPlanError>((res.usage_to_virtual@, res.virtual_image_count as nat)),
            Err(e) => spec_assign_virtual(*graph, *results, node_execution_order@, node_execution_order@.len())
                == Err::<(Seq<Option<VirtualImageId>>, nat), RenderGraphPlanError>(e),
        },
{
    let nu = graph.image_usages.len();
    let mut map: Vec<Option<VirtualImageId>> = Vec::new();
    for i in 0..nu
        invariant
            map@.len() == i,
            forall|u: int| 0 <= u < i ==> map@[u] is None,
    {
        map.push(None);
    }
    let mut next_id: usize = 0;
    let ghost mut vspec: Seq<Option<RenderGraphImageSpecification>> = Seq::empty();
    proof {
        assert(map@ =~= Seq::new(graph.image_usages@.len(), |u: int| None::<VirtualImageId>));
    }
    let n = node_execution_order.len();
    for oi in 0..n
        invariant
            graph.wf(),
            n == node_execution_order@.len(),
            forall|k: int| 0 <= k < node_execution_order@.len() ==> (#[trigger] node_execution_order@[k]).0 < graph.nodes@.len(),
            map@.len() == graph.image_usages@.len(),
            vspec.len() == next_id,
            virtual_specs_agree(*results, map@, vspec),
            forall|k: int| 0 <= k < oi ==> node_assigned(*graph, *results, map@, #[trigger] node_execution_order@[k]),
            spec_assign_virtual(*graph, *results, node_execution_order@, oi as nat)
                == Ok::<(Seq<Option<VirtualImageId>>, nat), RenderGraphPlanError>((map@, next_id as nat)),
    {
        let node_id = node_execution_order[oi];
        let node = graph.node(node_id);
        proof {
            assert(node.usages_below(graph.image_usages@.len()));
        }
        let ghost m_start = map@;
        let ghost n_start = next_id as nat;
        let mut written_images: Vec<RenderGraphImageUsageId> = Vec::new();
        let ncreates = node.image_creates.len();
        for ci in 0..ncreates
            invariant
                graph.wf(),
                node == graph.spec_node(node_id),
                node.usages_below(graph.image_usages@.len()),
                ncreates == node.image_creates@.len(),
                map@.len() == graph.image_usages@.len(),
                vspec.len() == next_id,
                virtual_specs_agree(*results, map@, vspec),
                forall|u: int| 0 <= u < m_start.len() && #[trigger] m_start[u] is Some ==> map@[u] is Some,
                m_start.len() == map@.len(),
                written_images@.len() == ci,
                forall|j: int| 0 <= j < ci ==> #[trigger] written_images@[j] == node.image_creates@[j].image,
                forall|j: int| 0 <= j < written_images@.len() ==> map@[(#[trigger] written_images@[j]).0 as int] is Some
                    && written_images@[j].0 < graph.image_usages@.len(),
                oi < n,
                n == node_execution_order@.len(),
                node_id == node_execution_order@[oi as int],
                spec_assign_virtual(*graph, *results, node_execution_order@, oi as nat)
                    == Ok::<(Seq<Option<VirtualImageId>>, nat), RenderGraphPlanError>((m_start, n_start)),
                spec_creates(*node, m_start, n_start, ci as nat) == Ok::<(Seq<Option<VirtualImageId>>, nat), RenderGraphPlanError>((map@, next_id as nat)),
        {
            if next_id == usize::MAX {
                proof {
                    lemma_creates_stays_err(*node, m_start, n_start, (ci + 1) as nat, ncreates as nat, RenderGraphPlanError::TooManyImageUsages);
                    lemma_node_err_fails_all(*graph, *results, node_execution_order@, oi as nat, m_start, n_start, RenderGraphPlanError::TooManyImageUsages);
                }
                return Err(RenderGraphPlanError::TooManyImageUsages);
            }
            let image = node.image_creates[ci].image;
            let virtual_image = VirtualImageId(next_id);
            next_id = next_id + 1;
            proof {
                vspec = vspec.push(results.spec_specification(image));
            }
            let ghost mb = map@;
            map.set(image.0, Some(virtual_image));
            written_images.push(image);
            proof {
                assert forall|u: int| 0 <= u < m_start.len() && #[trigger] m_start[u] is Some implies map@[u] is Some by {
                    assert(mb[u] is Some);
                    if u != image.0 {
                        assert(map@[u] == mb[u]);
                    }
                }
                assert forall|u: int| 0 <= u < map@.len() && (#[trigger] map@[u]) is Some implies {
                    &&& (map@[u]->0).0 < vspec.len()
                    &&& results.spec_specification(RenderGraphImageUsageId(u as usize)) == vspec[(map@[u]->0).0 as int]
                } by {
                }
                assert forall|j: int| 0 <= j < written_images@.len() implies map@[(#[trigger] written_images@[j]).0 as int] is Some
                    && written_images@[j].0 < graph.image_usages@.len() by {
                    if j < written_images@.len() - 1 {
                        assert(mb[written_images@[j].0 as int] is Some);
                    }
                }
            }
        }
        let ghost m1 = map@;
        let ghost n1 = next_id as nat;
        let nmods = node.image_modifies.len();
        for mi in 0..nmods
            invariant
                graph.wf(),
                node == graph.spec_node(node_id),
                node.usages_below(graph.image_usages@.len()),
                ncreates == node.image_creates@.len(),
                nmods == node.image_modifies@.len(),
                map@.len() == graph.image_usages@.len(),
                vspec.len() == next_id,
                virtual_specs_agree(*results, map@, vspec),
                forall|u: int| 0 <= u < m_start.len() && #[trigger] m_start[u] is Some ==> map@[u] is Some,
                m_start.len() == map@.len(),
                written_images@.len() == ncreates + mi,
                forall|j: int| 0 <= j < ncreates ==> #[trigger] written_images@[j] == node.image_creates@[j].image,
                forall|j: int| 0 <= j < mi ==> #[trigger] written_images@[ncreates + j] == node.image_modifies@[j].output,
                forall|j: int| 0 <= j < written_images@.len() ==> map@[(#[trigger] written_images@[j]).0 as int] is Some
                    && written_images@[j].0 < graph.image_usages@.len(),
                oi < n,
                n == node_execution_order@.len(),
                node_id == node_execution_order@[oi as int],
                spec_assign_virtual(*graph, *results, node_execution_order@, oi as nat)
                    == Ok::<(Seq<Option<VirtualImageId>>, nat), RenderGraphPlanError>((m_start, n_start)),
                spec_creates(*node, m_start, n_start, ncreates as nat) == Ok::<(Seq<Option<VirtualImageId>>, nat), RenderGraphPlanError>((m1, n1)),
                next_id as nat == n1,
                spec_modifies(*node, *results, m1, mi as nat) == Ok::<Seq<Option<VirtualImageId>>, RenderGraphPlanError>(map@),
        {
            let modify = &node.image_modifies[mi];
            let same_spec = match (results.specification(modify.input), results.specification(modify.output)) {
                (None, None) => true,
                (Some(a), Some(b)) => a == b,
                _ => false,
            };
            if !same_spec {
                proof {
                    let e = RenderGraphPlanError::ModifySpecificationMismatch(modify.output);
                    lemma_modifies_stays_err(*node, *results, m1, (mi + 1) as nat, nmods as nat, e);
                    lemma_node_err_fails_all(*graph, *results, node_execution_order@, oi as nat, m_start, n_start, e);
                }
                return Err(RenderGraphPlanError::ModifySpecificationMismatch(modify.output));
            }
            let virtual_image = match map[modify.input.0] {
                Some(v) => v,
                None => {
                    proof {
                        let e = RenderGraphPlanError::UnassignedImage(modify.input);
                        lemma_modifies_stays_err(*node, *results, m1, (mi + 1) as nat, nmods as nat, e);
                        lemma_node_err_fails_all(*graph, *results, node_execution_order@, oi as nat, m_start, n_start, e);
                    }
                    return Err(RenderGraphPlanError::UnassignedImage(modify.input));
                },
            };
            let ghost mb = map@;
            map.set(modify.output.0, Some(virtual_image));
            written_images.push(modify.output);
            proof {
                assert forall|u: int| 0 <= u < m_start.len() && #[trigger] m_start[u] is Some implies map@[u] is Some by {
                    assert(mb[u] is Some);
                    if u != modify.output.0 {
                        assert(map@[u] == mb[u]);
                    }
                }
                assert forall|u: int| 0 <= u < map@.len() && (#[trigger] map@[u]) is Some implies {
                    &&& (map@[u]->0).0 < vspec.len()
                    &&& results.spec_specification(RenderGraphImageUsageId(u as usize)) == vspec[(map@[u]->0).0 as int]
                } by {
                    if u == modify.output.0 {
                        assert(map@[modify.input.0 as int] is Some);
                    }
                }
                assert forall|j: int| 0 <= j < written_images@.len() implies map@[(#[trigger] written_images@[j]).0 as int] is Some
                    && written_images@[j].0 < graph.image_usages@.len() by {
                    if j < written_images@.len() - 1 {
                        assert(mb[written_images@[j].0 as int] is Some);
                    }
                }
            }
        }
        let ghost m2 = map@;
        proof {
            assert(written_images@ =~= node_written_images(*node)) by {
                assert forall|j: int| 0 <= j < written_images@.len() implies written_images@[j] == node_written_images(*node)[j] by {
                    if j < ncreates {
                        assert(written_images@[j] == node.image_creates@[j].image);
                    } else {
                        assert(written_images@[ncreates + (j - ncreates)] == node.image_modifies@[j - ncreates].output);
                    }
                }
            }
        }
        let nwritten = written_images.len();
        for wi in 0..nwritten
            invariant
                graph.wf(),
                node == graph.spec_node(node_id),
                node.usages_below(graph.image_usages@.len()),
                ncreates == node.image_creates@.len(),
                nmods == node.image_modifies@.len(),
                nwritten == written_images@.len(),
                nwritten == ncreates + nmods,
                map@.len() == graph.image_usages@.len(),
                vspec.len() == next_id,
                virtual_specs_agree(*results, map@, vspec),
                forall|u: int| 0 <= u < m_start.len() && #[trigger] m_start[u] is Some ==> map@[u] is Some,
                m_start.len() == map@.len(),
                forall|j: int| 0 <= j < ncreates ==> #[trigger] written_images@[j] == node.image_creates@[j].image,
                forall|j: int| 0 <= j < nmods ==> #[trigger] written_images@[ncreates + j] == node.image_modifies@[j].output,
                forall|j: int| 0 <= j < written_images@.len() ==> map@[(#[trigger] written_images@[j]).0 as int] is Some
                    && written_images@[j].0 < graph.image_usages@.len(),
                forall|j: int| 0 <= j < wi ==> readers_share(*graph, *results, map@, #[trigger] written_images@[j]),
                oi < n,
                n == node_execution_order@.len(),
                node_id == node_execution_order@[oi as int],
                spec_assign_virtual(*graph, *results, node_execution_order@, oi as nat)
                    == Ok::<(Seq<Option<VirtualImageId>>, nat), RenderGraphPlanError>((m_start, n_start)),
                spec_creates(*node, m_start, n_start, ncreates as nat) == Ok::<(Seq<Option<VirtualImageId>>, nat), RenderGraphPlanError>((m1, n1)),
                next_id as nat == n1,
                spec_modifies(*node, *results, m1, nmods as nat) == Ok::<Seq<Option<VirtualImageId>>, RenderGraphPlanError>(m2),
                written_images@ == node_written_images(*node),
                spec_share_all(*graph, *results, m2, node_written_images(*node), wi as nat) == Ok::<Seq<Option<VirtualImageId>>, RenderGraphPlanError>(map@),
        {
            let w = written_images[wi];
            let ghost before = map@;
            match share_written_image(graph, results, &mut map, w, Ghost(vspec)) {
                Ok(_) => {},
                Err(e) => {
                    proof {
                        lemma_share_all_stays_err(*graph, *results, m2, node_written_images(*node), (wi + 1) as nat, nwritten as nat, e);
                        lemma_node_err_fails_all(*graph, *results, node_execution_order@, oi as nat, m_start, n_start, e);
                    }
                    return Err(e);
                },
            }
            proof {
                assert forall|j: int| 0 <= j < wi + 1 implies readers_share(*graph, *results, map@, #[trigger] written_images@[j]) by {
                    let wj = written_images@[j];
                    if j < wi {
                        assert(readers_share(*graph, *results, before, wj));
                        graph.lemma_usage_wf(wj);
                        assert forall|jj: int| 0 <= jj < graph.spec_version_info(wj).read_usages@.len() implies {
                            let r = #[trigger] graph.spec_version_info(wj).read_usages@[jj];
                            &&& (results.spec_specification(r) is None || results.spec_specification(r) == results.spec_specification(wj))
                            &&& (results.spec_specification(r) is Some ==> map@[r.0 as int] is Some)
                        } by {
                            let r = graph.spec_version_info(wj).read_usages@[jj];
                            if results.spec_specification(r) is Some {
                                assert(before[r.0 as int] is Some);
                            }
                        }
                    }
                }
                assert forall|u: int| 0 <= u < m_start.len() && #[trigger] m_start[u] is Some implies map@[u] is Some by {
                    assert(before[u] is Some);
                }
                assert forall|j: int| 0 <= j < written_images@.len() implies map@[(#[trigger] written_images@[j]).0 as int] is Some
                    && written_images@[j].0 < graph.image_usages@.len() by {
                    assert(before[written_images@[j].0 as int] is Some);
                }
            }
        }
        proof {
            assert(node_assigned(*graph, *results, map@, node_id)) by {
                assert forall|i: int| 0 <= i < node.image_creates@.len() implies {
                    let w = (#[trigger] node.image_creates@[i]).image;
                    &&& map@[w.0 as int] is Some
                    &&& readers_share(*graph, *results, map@, w)
                } by {
                    assert(written_images@[i] == node.image_creates@[i].image);
                }
                assert forall|i: int| 0 <= i < node.image_modifies@.len() implies {
                    let w = (#[trigger] node.image_modifies@[i]).output;
                    &&& map@[w.0 as int] is Some
                    &&& readers_share(*graph, *results, map@, w)
                } by {
                    assert(written_images@[ncreates + i] == node.image_modifies@[i].output);
                }
            }
            assert forall|k: int| 0 <= k < oi + 1 implies node_assigned(*graph, *results, map@, #[trigger] node_execution_order@[k]) by {
                if k < oi {
                    lemma_node_assigned_grows(*graph, *results, m_start, map@, node_execution_order@[k]);
                }
            }
        }
    }
    proof {
        let m = map@;
        assert forall|u1: int, u2: int|
            0 <= u1 < m.len() && 0 <= u2 < m.len() && (#[trigger] m[u1]) is Some && #[trigger] m[u2] == m[u1]
            implies results.spec_specification(RenderGraphImageUsageId(u1 as usize)) == results.spec_specification(RenderGraphImageUsageId(u2 as usize)) by {
        }
    }
    Ok(AssignVirtualImagesResult { usage_to_virtual: map, virtual_image_count: next_id })
}


proof fn lemma_share_readers_effect(
    g: RenderGraphBuilder,
    res: DetermineImageConstraintsResult,
    m: Seq<Option<VirtualImageId>>,
    w: RenderGraphImageUsageId,
    wv: VirtualImageId,
    ws: RenderGraphImageSpecification,
    j: nat,
)
    requires
        g.wf(),
        w.0 < g.image_usages@.len(),
        m.len() == g.image_usages@.len(),
        m[w.0 as int] == Some(wv),
        j <= g.spec_version_info(w).read_usages@.len(),
        spec_share_readers(g, res, m, w, wv, ws, j) is Ok,
    ensures
        ({
            let m2 = spec_share_readers(g, res, m, w, wv, ws, j)->Ok_0;
            let rs = g.spec_version_info(w).read_usages@;
            &&& m2.len() == m.len()
            &&& m2[w.0 as int] == Some(wv)
            &&& forall|i: int| 0 <= i < j && res.spec_specification(#[trigger] rs[i]) is Some ==> m2[rs[i].0 as int] == Some(wv)
            &&& forall|u: int| 0 <= u < m.len() && (#[trigger] m[u]) is Some ==> m2[u] == m[u]
        }),
    decreases j,
{
    g.lemma_usage_wf(w);
    if j > 0 {
        if spec_share_readers(g, res, m, w, wv, ws, (j - 1) as nat) is Err {
            assert(spec_share_readers(g, res, m, w, wv, ws, j) is Err);
        }
        lemma_share_readers_effect(g, res, m, w, wv, ws, (j - 1) as nat);
        let m1 = spec_share_readers(g, res, m, w, wv, ws, (j - 1) as nat)->Ok_0;
        let rs = g.spec_version_info(w).read_usages@;
        let r = rs[j - 1];
        assert(r.0 < g.image_usages@.len());
    }
}

/// Sharing the version written at `w` with its readers gives every reader that has a
/// specification the virtual image of `w`, and changes no virtual image already given.
pub proof fn lemma_readers_share_writer_image(
    g: RenderGraphBuilder,
    res: DetermineImageConstraintsResult,
    m: Seq<Option<VirtualImageId>>,
    w: RenderGraphImageUsageId,
)
    requires
        g.wf(),
        w.0 < g.image_usages@.len(),
        m.len() == g.image_usages@.len(),
        spec_share_written(g, res, m, w) is Ok,
    ensures
        ({
            let m2 = spec_share_written(g, res, m, w)->Ok_0;
            let rs = g.spec_version_info(w).read_usages@;
            &&& m[w.0 as int] is Some
            &&& m2.len() == m.len()
            &&& m2[w.0 as int] == m[w.0 as int]
            &&& forall|i: int| 0 <= i < rs.len() && res.spec_specification(#[trigger] rs[i]) is Some ==> m2[rs[i].0 as int] == m[w.0 as int]
            &&& forall|u: int| 0 <= u < m.len() && (#[trigger] m[u]) is Some ==> m2[u] == m[u]
        }),
{
    let wv = m[w.0 as int]->0;
    let ws = res.spec_specification(w)->0;
    lemma_share_readers_effect(g, res, m, w, wv, ws, g.spec_version_info(w).read_usages@.len());
}

/// The creates of a node take new virtual images numbered on from `next`, one each and in
/// order: the `k`-th create gets number `next + k` (unless a later create of the node names the
/// same usage), and the count moves on by the number of creates.
pub proof fn lemma_creates_take_new_images(node: RenderGraphNode, m: Seq<Option<VirtualImageId>>, next: nat, i: nat)
    requires
        i <= node.image_creates@.len(),
        forall|k: int| 0 <= k < node.image_creates@.len() ==> (#[trigger] node.image_creates@[k]).image.0 < m.len(),
        spec_creates(node, m, next, i) is Ok,
    ensures
        ({
            let (m2, n2) = spec_creates(node, m, next, i)->Ok_0;
            let cs = node.image_creates@;
            &&& n2 == next + i
            &&& m2.len() == m.len()
            &&& forall|k: int| 0 <= k < i && (forall|l: int| k < l < i ==> (#[trigger] cs[l]).image != cs[k].image)
                ==> m2[(#[trigger] cs[k]).image.0 as int] == Some(VirtualImageId((next + k) as usize))
        }),
    decreases i,
{
    if i > 0 {
        if spec_creates(node, m, next, (i - 1) as nat) is Err {
            assert(spec_creates(node, m, next, i) is Err);
        }
        lemma_creates_take_new_images(node, m, next, (i - 1) as nat);
        let cs = node.image_creates@;
        let (m1, n1) = spec_creates(node, m, next, (i - 1) as nat)->Ok_0;
        let (m2, n2) = spec_creates(node, m, next, i)->Ok_0;
        assert(cs[i - 1].image.0 < m.len());
        assert forall|k: int| 0 <= k < i && (forall|l: int| k < l < i ==> (#[trigger] cs[l]).image != cs[k].image)
            implies m2[(#[trigger] cs[k]).image.0 as int] == Some(VirtualImageId((next + k) as usize)) by {
            if k < i - 1 {
                assert(cs[i - 1].image != cs[k].image);
                assert(forall|l: int| k < l < i - 1 ==> (#[trigger] cs[l]).image != cs[k].image);
                assert(m2[cs[k].image.0 as int] == m1[cs[k].image.0 as int]);
            }
        }
    }
}

/// A modify hands the virtual image of the version it reads on to the version it writes; the
/// two have the same specification.
pub proof fn lemma_modify_passes_virtual_image(node: RenderGraphNode, res: DetermineImageConstraintsResult, m: Seq<Option<VirtualImageId>>, i: nat)
    requires
        i < node.image_modifies@.len(),
        forall|k: int| 0 <= k < node.image_modifies@.len() ==> (#[trigger] node.image_modifies@[k]).output.0 < m.len(),
        spec_modifies(node, res, m, i + 1) is Ok,
    ensures
        ({
            let md = node.image_modifies@[i as int];
            let m1 = spec_modifies(node, res, m, i)->Ok_0;
            let m2 = spec_modifies(node, res, m, i + 1)->Ok_0;
            &&& spec_modifies(node, res, m, i) is Ok
            &&& m1[md.input.0 as int] is Some
            &&& m2[md.output.0 as int] == m1[md.input.0 as int]
            &&& res.spec_specification(md.input) == res.spec_specification(md.output)
        }),
{
    if spec_modifies(node, res, m, i) is Err {
        assert(spec_modifies(node, res, m, i + 1) is Err);
    }
    lemma_modifies_len(node, res, m, i);
    assert(node.image_modifies@[i as int].output.0 < m.len());
}

proof fn lemma_modifies_len(node: RenderGraphNode, res: DetermineImageConstraintsResult, m: Seq<Option<VirtualImageId>>, i: nat)
    requires
        i <= node.image_modifies@.len(),
        forall|k: int| 0 <= k < node.image_modifies@.len() ==> (#[trigger] node.image_modifies@[k]).output.0 < m.len(),
    ensures
        spec_modifies(node, res, m, i) is Ok ==> spec_modifies(node, res, m, i)->Ok_0.len() == m.len(),
    decreases i,
{
    if i > 0 {
        lemma_modifies_len(node, res, m, (i - 1) as nat);
        assert(node.image_modifies@[i - 1].output.0 < m.len());
    }
}
} // verus!
