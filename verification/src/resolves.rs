use vstd::prelude::*;
use crate::image_spec::{RenderGraphImageConstraint, RenderGraphImageSpecification, SAMPLE_COUNT_1};
use crate::graph::{RenderGraphBuilder, RenderGraphNode, RenderGraphNodeId, RenderGraphImageUsageId, RenderGraphImageUsage, RenderGraphImageVersionId};
use crate::constraints::DetermineImageConstraintsResult;
use crate::plan_error::RenderGraphPlanError;

verus! {

/// A resolve to add: the color attachment index, the single-sampled specification of the
/// resolved image, and the read usages that will read the resolved image instead.
pub struct ResolveToAdd {
    pub color_attachment_index: usize,
    pub resolve_spec: RenderGraphImageSpecification,
    pub usages_to_move: Vec<RenderGraphImageUsageId>,
}

/// `spec` with a single sample per pixel.
pub open spec fn single_sampled(spec: RenderGraphImageSpecification) -> RenderGraphImageSpecification {
    RenderGraphImageSpecification { samples: SAMPLE_COUNT_1, ..spec }
}

/// The image color attachment `ci` of `node` writes, if any.
pub open spec fn color_write(node: RenderGraphNode, ci: int) -> Option<RenderGraphImageUsageId> {
    if 0 <= ci < node.color_attachments@.len() && node.color_attachments@[ci] is Some {
        node.color_attachments@[ci]->0.write_image
    } else {
        None
    }
}

/// Color attachment `ci` of `node` writes an image that `res` makes multisampled, and some
/// reader of that image wants it single-sampled.
pub open spec fn wants_resolve(g: RenderGraphBuilder, node: RenderGraphNode, res: DetermineImageConstraintsResult, ci: int) -> bool {
    &&& color_write(node, ci) is Some
    &&& res.spec_specification(color_write(node, ci)->0) is Some
    &&& (res.spec_specification(color_write(node, ci)->0)->0).samples != SAMPLE_COUNT_1
    &&& exists|j: int| 0 <= j < g.spec_version_info(color_write(node, ci)->0).read_usages@.len()
        && res.spec_specification(#[trigger] g.spec_version_info(color_write(node, ci)->0).read_usages@[j])
            == Some(single_sampled(res.spec_specification(color_write(node, ci)->0)->0))
}

/// Some color attachment of `node` writes an image without a specification, or a
/// multisampled image one of whose readers has no specification.
pub open spec fn resolve_scan_blocked(g: RenderGraphBuilder, node: RenderGraphNode, res: DetermineImageConstraintsResult) -> bool {
    exists|ci: int| (#[trigger] color_write(node, ci)) is Some && {
        let w = color_write(node, ci)->0;
        ||| res.spec_specification(w) is None
        ||| (res.spec_specification(w)->0).samples != SAMPLE_COUNT_1 && exists|j: int|
            0 <= j < g.spec_version_info(w).read_usages@.len() && res.spec_specification(#[trigger] g.spec_version_info(w).read_usages@[j]) is None
    }
}

/// Finds, for one node, the multisampled color attachments whose output some reader wants
/// single-sampled. The first such reader of each attachment will read a resolve instead.
fn find_resolves(
    graph: &RenderGraphBuilder,
    node_id: RenderGraphNodeId,
    results: &DetermineImageConstraintsResult,
) -> (r: Result<Vec<ResolveToAdd>, RenderGraphPlanError>)
    requires
        graph.wf(),
        node_id.0 < graph.nodes@.len(),
    ensures
        r is Ok ==> forall|i: int| 0 <= i < r->Ok_0@.len() ==> {
            let add = #[trigger] r->Ok_0@[i];
            &&& add.resolve_spec.samples == SAMPLE_COUNT_1
            &&& add.usages_to_move@.len() == 1
            &&& (add.usages_to_move@[0]).0 < graph.image_usages@.len()
            &&& add.color_attachment_index < graph.spec_node(node_id).color_attachments@.len()
            &&& graph.spec_node(node_id).color_attachments@[add.color_attachment_index as int] is Some
            &&& {
                let ca = graph.spec_node(node_id).color_attachments@[add.color_attachment_index as int]->0;
                &&& ca.write_image is Some
                &&& results.spec_specification(ca.write_image->0) is Some
                &&& add.resolve_spec == single_sampled(results.spec_specification(ca.write_image->0)->0)
                &&& (results.spec_specification(ca.write_image->0)->0).samples != SAMPLE_COUNT_1
                &&& results.spec_specification(add.usages_to_move@[0]) == Some(add.resolve_spec)
                &&& graph.spec_version_info(ca.write_image->0).read_usages@.contains(add.usages_to_move@[0])
            }
        },
        r is Ok ==> forall|i: int, j: int| 0 <= i < j < r->Ok_0@.len() ==> (#[trigger] r->Ok_0@[i]).color_attachment_index < (#[trigger] r->Ok_0@[j]).color_attachment_index,
        r is Ok ==> forall|ci: int| (#[trigger] color_write(graph.spec_node(node_id), ci)) is Some
            ==> results.spec_specification(color_write(graph.spec_node(node_id), ci)->0) is Some,
        r is Ok ==> forall|ci: int| #[trigger] wants_resolve(*graph, graph.spec_node(node_id), *results, ci)
            ==> exists|i: int| 0 <= i < r->Ok_0@.len() && (#[trigger] r->Ok_0@[i]).color_attachment_index == ci,
        r is Err ==> resolve_scan_blocked(*graph, graph.spec_node(node_id), *results),
{
    let node = graph.node(node_id);
    proof {
        assert(node.usages_below(graph.image_usages@.len()));
    }
    let mut resolves_to_add: Vec<ResolveToAdd> = Vec::new();
    let ncolor = node.color_attachments.len();
    for ci in 0..ncolor
        invariant
            graph.wf(),
            node == graph.spec_node(node_id),
            node.usages_below(graph.image_usages@.len()),
            ncolor == node.color_attachments@.len(),
            forall|i: int| 0 <= i < resolves_to_add@.len() ==> {
                let add = #[trigger] resolves_to_add@[i];
                &&& add.resolve_spec.samples == SAMPLE_COUNT_1
                &&& add.usages_to_move@.len() == 1
                &&& (add.usages_to_move@[0]).0 < graph.image_usages@.len()
                &&& add.color_attachment_index < node.color_attachments@.len()
                &&& node.color_attachments@[add.color_attachment_index as int] is Some
                &&& {
                    let ca = node.color_attachments@[add.color_attachment_index as int]->0;
                    &&& ca.write_image is Some
                    &&& results.spec_specification(ca.write_image->0) is Some
                    &&& add.resolve_spec == single_sampled(results.spec_specification(ca.write_image->0)->0)
                    &&& (results.spec_specification(ca.write_image->0)->0).samples != SAMPLE_COUNT_1
                    &&& results.spec_specification(add.usages_to_move@[0]) == Some(add.resolve_spec)
                    &&& graph.spec_version_info(ca.write_image->0).read_usages@.contains(add.usages_to_move@[0])
                }
            },
            forall|i: int, j: int| 0 <= i < j < resolves_to_add@.len() ==> (#[trigger] resolves_to_add@[i]).color_attachment_index < (#[trigger] resolves_to_add@[j]).color_attachment_index,
            forall|i: int| 0 <= i < resolves_to_add@.len() ==> (#[trigger] resolves_to_add@[i]).color_attachment_index < ci,
            forall|c: int| 0 <= c < ci && (#[trigger] color_write(*node, c)) is Some ==> results.spec_specification(color_write(*node, c)->0) is Some,
            forall|c: int| 0 <= c < ci && #[trigger] wants_resolve(*graph, *node, *results, c)
                ==> exists|i: int| 0 <= i < resolves_to_add@.len() && (#[trigger] resolves_to_add@[i]).color_attachment_index == c,
    {
        let ghost adds0 = resolves_to_add@;
        if let Some(color_attachment) = &node.color_attachments[ci] {
            if let Some(write_image) = color_attachment.write_image {
                proof {
                    assert(color_write(*node, ci as int) == Some(write_image));
                }
                let write_spec = match results.specification(write_image) {
                    Some(s) => s,
                    None => {
                        return Err(RenderGraphPlanError::MissingSpecification(write_image));
                    },
                };
                if write_spec.samples != SAMPLE_COUNT_1 {
                    let resolve_spec = RenderGraphImageSpecification { samples: SAMPLE_COUNT_1, ..write_spec };
                    let mut usages_to_move: Vec<RenderGraphImageUsageId> = Vec::new();
                    let version = graph.image_version_info(write_image);
                    proof {
                        graph.lemma_usage_wf(write_image);
                    }
                    let nreads = version.read_usages.len();
                    let mut k: usize = 0;
                    while k < nreads
                        invariant_except_break
                            usages_to_move@.len() == 0,
                        invariant
                            graph.wf(),
                            *version == graph.spec_version_info(write_image),
                            graph.version_info_wf(*version),
                            nreads == version.read_usages@.len(),
                            k <= nreads,
                            forall|j: int| 0 <= j < k ==> results.spec_specification(#[trigger] version.read_usages@[j]) != Some(resolve_spec),
                            *node == graph.spec_node(node_id),
                            color_write(*node, ci as int) == Some(write_image),
                            results.spec_specification(write_image) == Some(write_spec),
                            write_spec.samples != SAMPLE_COUNT_1,
                            resolve_spec.samples == SAMPLE_COUNT_1,
                        ensures
                            usages_to_move@.len() == 0 ==> forall|j: int| 0 <= j < nreads ==> results.spec_specification(#[trigger] version.read_usages@[j]) != Some(resolve_spec),
                            usages_to_move@.len() <= 1,
                            usages_to_move@.len() == 1 ==> {
                                &&& (usages_to_move@[0]).0 < graph.image_usages@.len()
                                &&& results.spec_specification(usages_to_move@[0]) == Some(resolve_spec)
                                &&& version.read_usages@.contains(usages_to_move@[0])
                            },
                        decreases nreads - k,
                    {
                        let read_usage = version.read_usages[k];
                        let read_spec = match results.specification(read_usage) {
                            Some(s) => s,
                            None => {
                                proof {
                                    assert(graph.spec_version_info(write_image).read_usages@[k as int] == read_usage);
                                }
                                return Err(RenderGraphPlanError::MissingSpecification(read_usage));
                            },
                        };
                        if read_spec == write_spec {
                        } else if read_spec == resolve_spec {
                            usages_to_move.push(read_usage);
                            proof {
                                assert(version.read_usages@[k as int] == read_usage);
                            }
                            break;
                        }
                        k = k + 1;
                    }
                    proof {
                        assert(resolve_spec == single_sampled(write_spec));
                    }
                    if usages_to_move.len() > 0 {
                        resolves_to_add.push(ResolveToAdd { color_attachment_index: ci, resolve_spec, usages_to_move });
                        proof {
                            assert(resolves_to_add@[adds0.len() as int].color_attachment_index == ci);
                            assert forall|c: int| 0 <= c < ci + 1 && #[trigger] wants_resolve(*graph, *node, *results, c)
                                implies exists|i: int| 0 <= i < resolves_to_add@.len() && (#[trigger] resolves_to_add@[i]).color_attachment_index == c by {
                                if c < ci {
                                    let i = choose|i: int| 0 <= i < adds0.len() && (#[trigger] adds0[i]).color_attachment_index == c;
                                    assert(resolves_to_add@[i] == adds0[i]);
                                }
                            }
                        }
                    } else {
                        proof {
                            assert(!wants_resolve(*graph, *node, *results, ci as int));
                        }
                    }
                } else {
                    proof {
                        assert(!wants_resolve(*graph, *node, *results, ci as int));
                    }
                }
            } else {
                proof {
                    assert(color_write(*node, ci as int) is None);
                }
            }
        } else {
            proof {
                assert(color_write(*node, ci as int) is None);
            }
        }
    }
    Ok(resolves_to_add)
}


/// `gb` came from `ga` by inserting resolves: nodes keep their color attachments, versions stay
/// valid, the readers of each version of the first `nres` resources are among those it had,
/// and only usages that `r0` makes single-sampled read another version.
pub open spec fn resolves_frame(
    ga: RenderGraphBuilder,
    gb: RenderGraphBuilder,
    r0: Seq<Option<RenderGraphImageSpecification>>,
    nres: nat,
) -> bool {
    &&& ga.image_usages@.len() <= gb.image_usages@.len()
    &&& ga.image_resources@.len() <= gb.image_resources@.len()
    &&& gb.nodes@.len() == ga.nodes@.len()
    &&& forall|i: int| 0 <= i < ga.nodes@.len() ==> (#[trigger] gb.nodes@[i]).color_attachments == ga.nodes@[i].color_attachments
    &&& forall|v: RenderGraphImageVersionId| #[trigger] ga.valid_version(v) ==> gb.valid_version(v)
    &&& forall|v: RenderGraphImageVersionId, x: RenderGraphImageUsageId|
        ga.valid_version(v) && v.index < nres && #[trigger] gb.spec_version_at(v).read_usages@.contains(x)
            ==> ga.spec_version_at(v).read_usages@.contains(x)
    &&& forall|u: int| 0 <= u < ga.image_usages@.len() && (#[trigger] gb.image_usages@[u]).version != ga.image_usages@[u].version
        ==> u < r0.len() && r0[u] is Some && (r0[u]->0).samples == SAMPLE_COUNT_1
}

proof fn lemma_frame_refl(g: RenderGraphBuilder, r0: Seq<Option<RenderGraphImageSpecification>>, nres: nat)
    ensures
        resolves_frame(g, g, r0, nres),
{
}

proof fn lemma_frame_trans(
    ga: RenderGraphBuilder,
    gb: RenderGraphBuilder,
    gc: RenderGraphBuilder,
    r0: Seq<Option<RenderGraphImageSpecification>>,
    nres: nat,
)
    requires
        resolves_frame(ga, gb, r0, nres),
        resolves_frame(gb, gc, r0, nres),
    ensures
        resolves_frame(ga, gc, r0, nres),
{
    assert forall|i: int| 0 <= i < ga.nodes@.len() implies (#[trigger] gc.nodes@[i]).color_attachments == ga.nodes@[i].color_attachments by {
        assert(gb.nodes@[i].color_attachments == ga.nodes@[i].color_attachments);
    }
    assert forall|v: RenderGraphImageVersionId| #[trigger] ga.valid_version(v) implies gc.valid_version(v) by {
        assert(gb.valid_version(v));
    }
    assert forall|v: RenderGraphImageVersionId, x: RenderGraphImageUsageId|
        ga.valid_version(v) && v.index < nres && #[trigger] gc.spec_version_at(v).read_usages@.contains(x)
        implies ga.spec_version_at(v).read_usages@.contains(x) by {
        assert(gb.valid_version(v));
        assert(gb.spec_version_at(v).read_usages@.contains(x));
    }
    assert forall|u: int| 0 <= u < ga.image_usages@.len() && (#[trigger] gc.image_usages@[u]).version != ga.image_usages@[u].version
        implies u < r0.len() && r0[u] is Some && (r0[u]->0).samples == SAMPLE_COUNT_1 by {
        if gb.image_usages@[u].version == ga.image_usages@[u].version {
            assert(gc.image_usages@[u].version != gb.image_usages@[u].version);
        }
    }
}

/// Color attachment `ci` of node `n` has a resolve attachment writing a usage added since
/// `g0`, single-sampled like the color image.
pub open spec fn has_resolve(
    g0: RenderGraphBuilder,
    g: RenderGraphBuilder,
    res: DetermineImageConstraintsResult,
    n: RenderGraphNodeId,
    ci: int,
) -> bool {
    let node = g.spec_node(n);
    &&& color_write(node, ci) is Some
    &&& 0 <= ci < node.resolve_attachments@.len()
    &&& node.resolve_attachments@[ci] is Some
    &&& g0.image_usages@.len() <= (node.resolve_attachments@[ci]->0).write_image.0 < g.image_usages@.len()
    &&& res.spec_specification((node.resolve_attachments@[ci]->0).write_image)
        == Some(single_sampled(res.spec_specification(color_write(node, ci)->0)->0))
}

/// The number of color attachment slots of the first `i` nodes of `order`.
pub open spec fn color_slots(g: RenderGraphBuilder, order: Seq<RenderGraphNodeId>, i: nat) -> nat
    decreases i,
{
    if i == 0 {
        0
    } else {
        color_slots(g, order, (i - 1) as nat) + g.spec_node(order[i - 1]).color_attachments@.len()
    }
}

proof fn lemma_color_slots_mono(g: RenderGraphBuilder, order: Seq<RenderGraphNodeId>, i: nat, j: nat)
    requires
        i <= j,
    ensures
        color_slots(g, order, i) <= color_slots(g, order, j),
    decreases j - i,
{
    if i < j {
        lemma_color_slots_mono(g, order, i, (j - 1) as nat);
    }
}

/// A wish for a resolve in a later graph was already there in an earlier one: readers only go
/// away, and the multisampled color image itself never moves.
proof fn lemma_wants_shrinks_res(
    g0: RenderGraphBuilder,
    ga: RenderGraphBuilder,
    gb: RenderGraphBuilder,
    resa: DetermineImageConstraintsResult,
    resb: DetermineImageConstraintsResult,
    r0: Seq<Option<RenderGraphImageSpecification>>,
    node: RenderGraphNode,
    ci: int,
)
    requires
        g0.wf(),
        r0.len() == g0.image_usages@.len(),
        resolves_frame(g0, ga, r0, g0.image_resources@.len()),
        resolves_frame(ga, gb, r0, g0.image_resources@.len()),
        resa.images@.len() >= g0.image_usages@.len(),
        resb.images@.len() >= g0.image_usages@.len(),
        forall|u: int| 0 <= u < g0.image_usages@.len() ==> #[trigger] resa.images@[u] == r0[u],
        forall|u: int| 0 <= u < g0.image_usages@.len() ==> #[trigger] resb.images@[u] == r0[u],
        node.usages_below(g0.image_usages@.len()),
        wants_resolve(gb, node, resb, ci),
    ensures
        wants_resolve(ga, node, resa, ci),
{
    let nres = g0.image_resources@.len();
    lemma_frame_trans(g0, ga, gb, r0, nres);
    let w = color_write(node, ci)->0;
    assert(w.0 < g0.image_usages@.len());
    assert(resa.images@[w.0 as int] == r0[w.0 as int]);
    assert(resb.images@[w.0 as int] == r0[w.0 as int]);
    assert(ga.image_usages@[w.0 as int].version == g0.image_usages@[w.0 as int].version);
    assert(gb.image_usages@[w.0 as int].version == g0.image_usages@[w.0 as int].version);
    g0.lemma_usage_wf(w);
    let v = g0.image_usages@[w.0 as int].version;
    assert(g0.valid_version(v));
    assert(ga.valid_version(v));
    let ss = single_sampled(resb.spec_specification(w)->0);
    let j = choose|j: int| 0 <= j < gb.spec_version_info(w).read_usages@.len()
        && resb.spec_specification(#[trigger] gb.spec_version_info(w).read_usages@[j]) == Some(ss);
    let x = gb.spec_version_info(w).read_usages@[j];
    assert(gb.spec_version_at(v).read_usages@.contains(x));
    assert(ga.spec_version_at(v).read_usages@.contains(x));
    assert(g0.spec_version_at(v).read_usages@.contains(x));
    let j0 = choose|j0: int| 0 <= j0 < g0.spec_version_at(v).read_usages@.len() && g0.spec_version_at(v).read_usages@[j0] == x;
    assert(g0.version_info_wf(g0.spec_version_info(w)));
    assert(x.0 < g0.image_usages@.len());
    assert(resa.images@[x.0 as int] == resb.images@[x.0 as int]);
    let j2 = choose|j2: int| 0 <= j2 < ga.spec_version_at(v).read_usages@.len() && ga.spec_version_at(v).read_usages@[j2] == x;
    assert(resa.spec_specification(ga.spec_version_info(w).read_usages@[j2]) == Some(ss));
}

/// Nodes with the same color attachments scan alike.
proof fn lemma_same_colors(g: RenderGraphBuilder, res: DetermineImageConstraintsResult, n1: RenderGraphNode, n2: RenderGraphNode)
    requires
        n1.color_attachments == n2.color_attachments,
    ensures
        forall|ci: int| #[trigger] color_write(n1, ci) == color_write(n2, ci),
        resolve_scan_blocked(g, n1, res) == resolve_scan_blocked(g, n2, res),
        forall|ci: int| #[trigger] wants_resolve(g, n1, res, ci) == wants_resolve(g, n2, res, ci),
{
    assert forall|ci: int| #[trigger] color_write(n1, ci) == color_write(n2, ci) by {
    }
    if resolve_scan_blocked(g, n1, res) {
        let ci = choose|ci: int| (#[trigger] color_write(n1, ci)) is Some && {
            let w = color_write(n1, ci)->0;
            ||| res.spec_specification(w) is None
            ||| (res.spec_specification(w)->0).samples != SAMPLE_COUNT_1 && exists|j: int|
                0 <= j < g.spec_version_info(w).read_usages@.len() && res.spec_specification(#[trigger] g.spec_version_info(w).read_usages@[j]) is None
        };
        assert(color_write(n2, ci) == color_write(n1, ci));
    }
    if resolve_scan_blocked(g, n2, res) {
        let ci = choose|ci: int| (#[trigger] color_write(n2, ci)) is Some && {
            let w = color_write(n2, ci)->0;
            ||| res.spec_specification(w) is None
            ||| (res.spec_specification(w)->0).samples != SAMPLE_COUNT_1 && exists|j: int|
                0 <= j < g.spec_version_info(w).read_usages@.len() && res.spec_specification(#[trigger] g.spec_version_info(w).read_usages@[j]) is None
        };
        assert(color_write(n2, ci) == color_write(n1, ci));
    }
}

/// A resolve found in graph `gt` is still ready to apply in a later graph `ga`.
proof fn lemma_ready_later(
    g0: RenderGraphBuilder,
    gt: RenderGraphBuilder,
    ga: RenderGraphBuilder,
    rt: DetermineImageConstraintsResult,
    resa: DetermineImageConstraintsResult,
    r0: Seq<Option<RenderGraphImageSpecification>>,
    node_id: RenderGraphNodeId,
    add: ResolveToAdd,
)
    requires
        g0.wf(),
        gt.wf(),
        node_id.0 < gt.nodes@.len(),
        g0.image_usages@.len() <= gt.image_usages@.len(),
        resolves_frame(gt, ga, r0, g0.image_resources@.len()),
        rt.images@.len() == gt.image_usages@.len(),
        resa.images@.len() >= gt.image_usages@.len(),
        forall|u: int| 0 <= u < gt.image_usages@.len() ==> #[trigger] resa.images@[u] == rt.images@[u],
        resolve_ready(g0, gt, rt, node_id, add),
    ensures
        resolve_ready(g0, ga, resa, node_id, add),
{
    let ci = add.color_attachment_index as int;
    assert(ga.nodes@[node_id.0 as int].color_attachments == gt.nodes@[node_id.0 as int].color_attachments);
    assert(color_write(ga.spec_node(node_id), ci) == color_write(gt.spec_node(node_id), ci));
    let w = color_write(gt.spec_node(node_id), ci)->0;
    assert(gt.spec_node(node_id).usages_below(gt.image_usages@.len()));
    assert(resa.images@[w.0 as int] == rt.images@[w.0 as int]);
    assert forall|j: int| 0 <= j < add.usages_to_move@.len() implies {
        let r = #[trigger] add.usages_to_move@[j];
        &&& r.0 < g0.image_usages@.len()
        &&& resa.images@[r.0 as int] is Some
        &&& (resa.images@[r.0 as int]->0).samples == SAMPLE_COUNT_1
    } by {
        let r = add.usages_to_move@[j];
        assert(resa.images@[r.0 as int] == rt.images@[r.0 as int]);
    }
}

/// The resolves found for a node are ready to apply, and their color attachment indices, in
/// increasing order, are at least their positions.
proof fn lemma_add_ready(
    g0: RenderGraphBuilder,
    gt: RenderGraphBuilder,
    rt: DetermineImageConstraintsResult,
    r0: Seq<Option<RenderGraphImageSpecification>>,
    node_id: RenderGraphNodeId,
    add: ResolveToAdd,
)
    requires
        g0.wf(),
        gt.wf(),
        node_id.0 < g0.nodes@.len(),
        r0.len() == g0.image_usages@.len(),
        resolves_frame(g0, gt, r0, g0.image_resources@.len()),
        rt.images@.len() >= g0.image_usages@.len(),
        forall|u: int| 0 <= u < g0.image_usages@.len() ==> #[trigger] rt.images@[u] == r0[u],
        gt.nodes@[node_id.0 as int].color_attachments == g0.nodes@[node_id.0 as int].color_attachments,
        add.resolve_spec.samples == SAMPLE_COUNT_1,
        add.usages_to_move@.len() == 1,
        add.color_attachment_index < gt.spec_node(node_id).color_attachments@.len(),
        gt.spec_node(node_id).color_attachments@[add.color_attachment_index as int] is Some,
        ({
            let ca = gt.spec_node(node_id).color_attachments@[add.color_attachment_index as int]->0;
            &&& ca.write_image is Some
            &&& rt.spec_specification(ca.write_image->0) is Some
            &&& add.resolve_spec == single_sampled(rt.spec_specification(ca.write_image->0)->0)
            &&& (rt.spec_specification(ca.write_image->0)->0).samples != SAMPLE_COUNT_1
            &&& rt.spec_specification(add.usages_to_move@[0]) == Some(add.resolve_spec)
            &&& gt.spec_version_info(ca.write_image->0).read_usages@.contains(add.usages_to_move@[0])
        }),
    ensures
        resolve_ready(g0, gt, rt, node_id, add),
{
    let nres = g0.image_resources@.len();
    let ci = add.color_attachment_index as int;
    let w = color_write(gt.spec_node(node_id), ci)->0;
    let node0 = g0.spec_node(node_id);
    assert(color_write(node0, ci) == color_write(gt.spec_node(node_id), ci));
    assert(node0.usages_below(g0.image_usages@.len()));
    assert(w.0 < g0.image_usages@.len());
    assert(rt.images@[w.0 as int] == r0[w.0 as int]);
    assert(gt.image_usages@[w.0 as int].version == g0.image_usages@[w.0 as int].version);
    g0.lemma_usage_wf(w);
    let v = g0.image_usages@[w.0 as int].version;
    assert(g0.valid_version(v));
    let r = add.usages_to_move@[0];
    assert(gt.spec_version_at(v).read_usages@.contains(r));
    assert(g0.spec_version_at(v).read_usages@.contains(r));
    let j0 = choose|j0: int| 0 <= j0 < g0.spec_version_at(v).read_usages@.len() && g0.spec_version_at(v).read_usages@[j0] == r;
    assert(g0.version_info_wf(g0.spec_version_info(w)));
    assert(r.0 < g0.image_usages@.len());
    assert forall|j: int| 0 <= j < add.usages_to_move@.len() implies {
        let r = #[trigger] add.usages_to_move@[j];
        &&& r.0 < g0.image_usages@.len()
        &&& rt.images@[r.0 as int] is Some
        &&& (rt.images@[r.0 as int]->0).samples == SAMPLE_COUNT_1
    } by {
    }
}

/// In a sequence of indices that strictly increase from zero, each is at least its position.
proof fn lemma_increasing_indices(adds: Seq<ResolveToAdd>, i: int)
    requires
        0 <= i < adds.len(),
        forall|a: int, b: int| 0 <= a < b < adds.len() ==> (#[trigger] adds[a]).color_attachment_index < (#[trigger] adds[b]).color_attachment_index,
    ensures
        i <= adds[i].color_attachment_index,
    decreases i,
{
    if i > 0 {
        lemma_increasing_indices(adds, i - 1);
        assert(adds[i - 1].color_attachment_index < adds[i].color_attachment_index);
    }
}

/// A scan that failed in a later graph fails in the first one too.
proof fn lemma_blocked_back(
    g0: RenderGraphBuilder,
    g: RenderGraphBuilder,
    res: DetermineImageConstraintsResult,
    res0: DetermineImageConstraintsResult,
    node: RenderGraphNode,
)
    requires
        g0.wf(),
        res0.images@.len() == g0.image_usages@.len(),
        res.images@.len() >= g0.image_usages@.len(),
        forall|u: int| 0 <= u < g0.image_usages@.len() ==> #[trigger] res.images@[u] == res0.images@[u],
        resolves_frame(g0, g, res0.images@, g0.image_resources@.len()),
        node.usages_below(g0.image_usages@.len()),
        resolve_scan_blocked(g, node, res),
    ensures
        resolve_scan_blocked(g0, node, res0),
{
    let ci = choose|ci: int| (#[trigger] color_write(node, ci)) is Some && {
        let w = color_write(node, ci)->0;
        ||| res.spec_specification(w) is None
        ||| (res.spec_specification(w)->0).samples != SAMPLE_COUNT_1 && exists|j: int|
            0 <= j < g.spec_version_info(w).read_usages@.len() && res.spec_specification(#[trigger] g.spec_version_info(w).read_usages@[j]) is None
    };
    let w = color_write(node, ci)->0;
    assert(w.0 < g0.image_usages@.len());
    assert(res.images@[w.0 as int] == res0.images@[w.0 as int]);
    if res.spec_specification(w) is Some {
        assert(g.image_usages@[w.0 as int].version == g0.image_usages@[w.0 as int].version);
        g0.lemma_usage_wf(w);
        let v = g0.image_usages@[w.0 as int].version;
        assert(g0.valid_version(v));
        let j = choose|j: int| 0 <= j < g.spec_version_info(w).read_usages@.len() && res.spec_specification(#[trigger] g.spec_version_info(w).read_usages@[j]) is None;
        let x = g.spec_version_info(w).read_usages@[j];
        assert(g.spec_version_at(v).read_usages@.contains(x));
        assert(g0.spec_version_at(v).read_usages@.contains(x));
        let j2 = choose|j2: int| 0 <= j2 < g0.spec_version_at(v).read_usages@.len() && g0.spec_version_at(v).read_usages@[j2] == x;
        assert(g0.version_info_wf(g0.spec_version_info(w)));
        assert(x.0 < g0.image_usages@.len());
        assert(res.images@[x.0 as int] == res0.images@[x.0 as int]);
        assert(res0.spec_specification(g0.spec_version_info(w).read_usages@[j2]) is None);
    }
}

/// The usage is unchanged but for the image version it refers to.
pub open spec fn same_but_version(a: RenderGraphImageUsage, b: RenderGraphImageUsage) -> bool {
    &&& a.user == b.user
    &&& a.usage_type == b.usage_type
    &&& a.view_type == b.view_type
    &&& a.subresource_range == b.subresource_range
}

/// What `apply_resolve` needs of one resolve found for node `node_id`.
pub open spec fn resolve_ready(
    g0: RenderGraphBuilder,
    g: RenderGraphBuilder,
    res: DetermineImageConstraintsResult,
    node_id: RenderGraphNodeId,
    add: ResolveToAdd,
) -> bool {
    let node = g.spec_node(node_id);
    let w = color_write(node, add.color_attachment_index as int);
    &&& add.color_attachment_index < node.color_attachments@.len()
    &&& w is Some
    &&& res.spec_specification(w->0) is Some
    &&& add.resolve_spec == single_sampled(res.spec_specification(w->0)->0)
    &&& forall|j: int| 0 <= j < add.usages_to_move@.len() ==> {
        let r = #[trigger] add.usages_to_move@[j];
        &&& r.0 < g0.image_usages@.len()
        &&& res.images@[r.0 as int] is Some
        &&& (res.images@[r.0 as int]->0).samples == SAMPLE_COUNT_1
    }
}

/// Adds the resolve attachment `add` to node `node_id` and makes its readers read the
/// resolved image. Fails only when the graph has no room for another image usage.
#[verifier::rlimit(30)]
fn apply_resolve(
    graph: &mut RenderGraphBuilder,
    results: &mut DetermineImageConstraintsResult,
    node_id: RenderGraphNodeId,
    add: &ResolveToAdd,
    Ghost(g0): Ghost<RenderGraphBuilder>,
    Ghost(r0): Ghost<Seq<Option<RenderGraphImageSpecification>>>,
) -> (r: Result<(), RenderGraphPlanError>)
    requires
        old(graph).wf(),
        g0.wf(),
        node_id.0 < old(graph).nodes@.len(),
        r0.len() == g0.image_usages@.len(),
        resolves_frame(g0, *old(graph), r0, g0.image_resources@.len()),
        old(results).images@.len() == old(graph).image_usages@.len(),
        forall|u: int| 0 <= u < g0.image_usages@.len() ==> #[trigger] old(results).images@[u] == r0[u],
        resolve_ready(g0, *old(graph), *old(results), node_id, *add),
    ensures
        r is Err ==> r->Err_0 == RenderGraphPlanError::TooManyImageUsages && old(graph).image_usages@.len() >= usize::MAX - 1,
        r is Ok ==> {
            &&& final(graph).wf()
            &&& resolves_frame(*old(graph), *final(graph), r0, g0.image_resources@.len())
            &&& final(graph).image_usages@.len() == old(graph).image_usages@.len() + 1
            &&& final(graph).input_images == old(graph).input_images
            &&& final(graph).output_images == old(graph).output_images
            &&& forall|u: int| 0 <= u < old(graph).image_usages@.len() ==> same_but_version(#[trigger] final(graph).image_usages@[u], old(graph).image_usages@[u])
            &&& final(results).images@ == old(results).images@.push(Some(add.resolve_spec))
            &&& has_resolve(g0, *final(graph), *final(results), node_id, add.color_attachment_index as int)
            &&& forall|n: RenderGraphNodeId, c: int| n.0 < old(graph).nodes@.len() && (n != node_id || c != add.color_attachment_index)
                && #[trigger] has_resolve(g0, *old(graph), *old(results), n, c) ==> has_resolve(g0, *final(graph), *final(results), n, c)
        },
{
    if graph.image_usages.len() >= usize::MAX - 1 {
        return Err(RenderGraphPlanError::TooManyImageUsages);
    }
    let ghost ga = *graph;
    let ghost resa = *results;
    let ghost nres = g0.image_resources@.len();
    let image = graph.create_resolve_attachment(
        node_id,
        add.color_attachment_index,
        RenderGraphImageConstraint::from_specification(&add.resolve_spec),
    );
    results.images.push(Some(add.resolve_spec));
    let ghost gc = *graph;
    proof {
        assert forall|u: int| 0 <= u < ga.image_usages@.len() implies #[trigger] gc.image_usages@[u] == ga.image_usages@[u] by {
            assert(gc.image_usages@[u] == gc.image_usages@.take(ga.image_usages@.len() as int)[u]);
        }
        assert forall|i: int| 0 <= i < ga.nodes@.len() implies (#[trigger] gc.nodes@[i]).color_attachments == ga.nodes@[i].color_attachments by {
            if i != node_id.0 {
                assert(gc.nodes@[i] == ga.nodes@[i]);
            }
        }
        assert forall|v: RenderGraphImageVersionId, x: RenderGraphImageUsageId|
            ga.valid_version(v) && v.index < nres && #[trigger] gc.spec_version_at(v).read_usages@.contains(x)
            implies ga.spec_version_at(v).read_usages@.contains(x) by {
            assert(gc.spec_version_at(v) == ga.spec_version_at(v));
        }
        assert(resolves_frame(ga, gc, r0, nres));
        assert(g0.image_resources@.len() <= ga.image_resources@.len());
    }
    let ghost gm0 = *graph;
    let nmove = add.usages_to_move.len();
    for mi in 0..nmove
        invariant
            nmove == add.usages_to_move@.len(),
            g0.wf(),
            graph.wf(),
            r0.len() == g0.image_usages@.len(),
            nres == g0.image_resources@.len(),
            resolve_ready(g0, ga, resa, node_id, *add),
            image.0 == ga.image_usages@.len(),
            g0.image_usages@.len() <= ga.image_usages@.len(),
            nres <= ga.image_resources@.len(),
            graph.image_usages@.len() == ga.image_usages@.len() + 1,
            graph.spec_version(image).index == ga.image_resources@.len(),
            resolves_frame(gc, *graph, r0, nres),
            forall|u: int| 0 <= u < g0.image_usages@.len() ==> #[trigger] resa.images@[u] == r0[u],
            graph.nodes == gc.nodes,
            graph.input_images == gc.input_images,
            graph.output_images == gc.output_images,
            forall|u: int| 0 <= u < gc.image_usages@.len() ==> same_but_version(#[trigger] graph.image_usages@[u], gc.image_usages@[u]),
    {
        let usage = add.usages_to_move[mi];
        proof {
            assert(usage == add.usages_to_move@[mi as int]);
            graph.lemma_usage_wf(usage);
            graph.lemma_usage_wf(image);
        }
        let from = graph.image_usages[usage.0].version;
        let to = graph.image_usages[image.0].version;
        let ghost gm = *graph;
        graph.move_read_usage_to_image(usage, from, to);
        proof {
            let gn = *graph;
            assert forall|v: RenderGraphImageVersionId, x: RenderGraphImageUsageId|
                gm.valid_version(v) && v.index < nres && #[trigger] gn.spec_version_at(v).read_usages@.contains(x)
                implies gm.spec_version_at(v).read_usages@.contains(x) by {
                if v != from && v != to {
                    assert(gn.spec_version_at(v) == gm.spec_version_at(v));
                }
            }
            assert forall|u: int| 0 <= u < gm.image_usages@.len() && (#[trigger] gn.image_usages@[u]).version != gm.image_usages@[u].version
                implies u < r0.len() && r0[u] is Some && (r0[u]->0).samples == SAMPLE_COUNT_1 by {
                if u != usage.0 {
                    assert(gn.image_usages@[u] == gm.image_usages@[u]);
                } else {
                    assert(resa.images@[u] == r0[u]);
                }
            }
            assert forall|i: int| 0 <= i < gm.nodes@.len() implies (#[trigger] gn.nodes@[i]).color_attachments == gm.nodes@[i].color_attachments by {
            }
            assert forall|v: RenderGraphImageVersionId| #[trigger] gm.valid_version(v) implies gn.valid_version(v) by {
                let cn = gn.spec_version_at(v).creator_node;
                assert(gn.valid_version(v));
            }
            assert(resolves_frame(gm, gn, r0, nres));
            lemma_frame_trans(gc, gm, gn, r0, nres);
            assert(gn.image_usages@[image.0 as int] == gm.image_usages@[image.0 as int]);
            assert forall|u: int| 0 <= u < gc.image_usages@.len() implies same_but_version(#[trigger] gn.image_usages@[u], gc.image_usages@[u]) by {
                assert(same_but_version(gm.image_usages@[u], gc.image_usages@[u]));
                if u != usage.0 {
                    assert(gn.image_usages@[u] == gm.image_usages@[u]);
                }
            }
        }
    }
    proof {
        lemma_frame_trans(ga, gc, *graph, r0, nres);
        let gf = *graph;
        let node_a = ga.spec_node(node_id);
        let node_f = gf.spec_node(node_id);
        assert(node_f == gc.spec_node(node_id));
        let ci = add.color_attachment_index as int;
        assert(color_write(node_f, ci) == color_write(node_a, ci));
        let w = color_write(node_a, ci)->0;
        assert(node_a.usages_below(ga.image_usages@.len()));
        assert(w.0 < ga.image_usages@.len());
        assert(results.images@[w.0 as int] == resa.images@[w.0 as int]);
        assert(has_resolve(g0, gf, *results, node_id, ci));
        assert forall|n: RenderGraphNodeId, c: int| n.0 < ga.nodes@.len() && (n != node_id || c != add.color_attachment_index)
            && #[trigger] has_resolve(g0, ga, resa, n, c) implies has_resolve(g0, gf, *results, n, c) by {
            let na = ga.spec_node(n);
            let nf = gf.spec_node(n);
            if n != node_id {
                assert(nf == na);
            } else {
                assert(nf.resolve_attachments@[c] == na.resolve_attachments@[c]);
            }
            assert(color_write(nf, c) == color_write(na, c));
            let u = (na.resolve_attachments@[c]->0).write_image;
            assert(results.images@[u.0 as int] == resa.images@[u.0 as int]);
            assert(na.usages_below(ga.image_usages@.len()));
            let cw = color_write(na, c)->0;
            assert(results.images@[cw.0 as int] == resa.images@[cw.0 as int]);
        }
        assert forall|u: int| 0 <= u < ga.image_usages@.len() implies same_but_version(#[trigger] gf.image_usages@[u], ga.image_usages@[u]) by {
            assert(same_but_version(gf.image_usages@[u], gc.image_usages@[u]));
            assert(gc.image_usages@[u] == gc.image_usages@.take(ga.image_usages@.len() as int)[u]);
        }
    }
    Ok(())
}

/// What resolving leaves behind: the graph `g1` and specifications `c1` that `insert_resolves`
/// makes of `g0` and `c0` when it succeeds.
pub open spec fn resolved(
    g0: RenderGraphBuilder,
    order: Seq<RenderGraphNodeId>,
    c0: DetermineImageConstraintsResult,
    g1: RenderGraphBuilder,
    c1: DetermineImageConstraintsResult,
) -> bool {
    &&& g1.wf()
    &&& g1.nodes@.len() == g0.nodes@.len()
    &&& g1.input_images == g0.input_images
    &&& g1.output_images == g0.output_images
    &&& g0.image_usages@.len() <= g1.image_usages@.len()
    &&& c1.images@.len() == g1.image_usages@.len()
    &&& forall|u: int| 0 <= u < g0.image_usages@.len() ==> #[trigger] c1.images@[u] == c0.images@[u]
    &&& forall|u: int| g0.image_usages@.len() <= u < g1.image_usages@.len() ==> {
        &&& (#[trigger] c1.images@[u]) is Some
        &&& (c1.images@[u]->0).samples == SAMPLE_COUNT_1
    }
    &&& forall|u: int| 0 <= u < g0.image_usages@.len() ==> same_but_version(#[trigger] g1.image_usages@[u], g0.image_usages@[u])
    // Every color image of a scheduled node has a specification
    &&& forall|oi: int, ci: int| 0 <= oi < order.len()
        && (#[trigger] color_write(g0.spec_node(order[oi]), ci)) is Some
        ==> c0.spec_specification(color_write(g0.spec_node(order[oi]), ci)->0) is Some
    // A multisampled color image that a reader still wants single-sampled has a resolve
    &&& forall|oi: int, ci: int| 0 <= oi < order.len()
        && #[trigger] wants_resolve(g1, g0.spec_node(order[oi]), c1, ci)
        ==> has_resolve(g0, g1, c1, order[oi], ci)
    // The graph only lost readers, and only single-sampled readers moved
    &&& resolves_frame(g0, g1, c0.images@, g0.image_resources@.len())
}

/// Resolving cannot be done: a scheduled node's resolve scan is blocked, or there would be more
/// image usages than can be counted.
pub open spec fn resolves_blocked(g0: RenderGraphBuilder, order: Seq<RenderGraphNodeId>, c0: DetermineImageConstraintsResult) -> bool {
    (exists|oi: int| 0 <= oi < order.len()
            && #[trigger] resolve_scan_blocked(g0, g0.spec_node(order[oi]), c0))
        || g0.image_usages@.len() + color_slots(g0, order, order.len()) >= usize::MAX - 1
}

/// Where a color attachment writes a multisampled image that a later reader needs
/// single-sampled, adds a resolve attachment to the node and makes that reader read the
/// resolved image. The specification of each resolved image is recorded in `results`.
pub fn insert_resolves(
    graph: &mut RenderGraphBuilder,
    node_execution_order: &Vec<RenderGraphNodeId>,
    results: &mut DetermineImageConstraintsResult,
) -> (r: Result<(), RenderGraphPlanError>)
    requires
        old(graph).wf(),
        forall|k: int| 0 <= k < node_execution_order@.len() ==> (#[trigger] node_execution_order@[k]).0 < old(graph).nodes@.len(),
        old(results).images@.len() == old(graph).image_usages@.len(),
    ensures
        r is Ok ==> resolved(*old(graph), node_execution_order@, *old(results), *final(graph), *final(results)),
        r is Err ==> resolves_blocked(*old(graph), node_execution_order@, *old(results)),
{
    let ghost g0 = *graph;
    let ghost res0 = *results;
    let ghost r0 = results.images@;
    let ghost nres = g0.image_resources@.len();
    let ghost order = node_execution_order@;
    proof {
        lemma_frame_refl(g0, r0, nres);
    }
    let n = node_execution_order.len();
    for oi in 0..n
        invariant
            n == order.len(),
            order == node_execution_order@,
            g0 == *old(graph),
            res0 == *old(results),
            g0.wf(),
            graph.wf(),
            r0 == res0.images@,
            r0.len() == g0.image_usages@.len(),
            nres == g0.image_resources@.len(),
            forall|k: int| 0 <= k < order.len() ==> (#[trigger] order[k]).0 < g0.nodes@.len(),
            graph.nodes@.len() == g0.nodes@.len(),
            graph.input_images == g0.input_images,
            graph.output_images == g0.output_images,
            g0.image_usages@.len() <= graph.image_usages@.len(),
            results.images@.len() == graph.image_usages@.len(),
            forall|u: int| 0 <= u < g0.image_usages@.len() ==> #[trigger] results.images@[u] == r0[u],
            forall|u: int| g0.image_usages@.len() <= u < graph.image_usages@.len() ==> {
                &&& (#[trigger] results.images@[u]) is Some
                &&& (results.images@[u]->0).samples == SAMPLE_COUNT_1
            },
            forall|u: int| 0 <= u < g0.image_usages@.len() ==> same_but_version(#[trigger] graph.image_usages@[u], g0.image_usages@[u]),
            resolves_frame(g0, *graph, r0, nres),
            graph.image_usages@.len() <= g0.image_usages@.len() + color_slots(g0, order, oi as nat),
            forall|k: int, ci: int| 0 <= k < oi && (#[trigger] color_write(g0.spec_node(order[k]), ci)) is Some
                ==> res0.spec_specification(color_write(g0.spec_node(order[k]), ci)->0) is Some,
            forall|k: int, ci: int| 0 <= k < oi && #[trigger] wants_resolve(*graph, g0.spec_node(order[k]), *results, ci)
                ==> has_resolve(g0, *graph, *results, order[k], ci),
    {
        let node_id = node_execution_order[oi];
        let ghost gt = *graph;
        let ghost rt = *results;
        let ghost node0 = g0.spec_node(node_id);
        proof {
            assert(node_id == order[oi as int]);
            assert(gt.nodes@[node_id.0 as int].color_attachments == g0.nodes@[node_id.0 as int].color_attachments);
            assert(node0.usages_below(g0.image_usages@.len()));
            lemma_same_colors(gt, rt, gt.spec_node(node_id), node0);
        }
        let resolves_to_add = match find_resolves(graph, node_id, results) {
            Ok(v) => v,
            Err(e) => {
                proof {
                    lemma_blocked_back(g0, gt, rt, res0, node0);
                    assert(resolve_scan_blocked(g0, g0.spec_node(order[oi as int]), res0));
                }
                return Err(e);
            },
        };
        let ghost adds = resolves_to_add@;
        proof {
            lemma_frame_trans(g0, gt, gt, r0, nres);
            assert forall|i: int| 0 <= i < adds.len() implies #[trigger] resolve_ready(g0, gt, rt, node_id, adds[i]) by {
                lemma_add_ready(g0, gt, rt, r0, node_id, adds[i]);
            }
            assert forall|i: int| 0 <= i < adds.len() implies i <= (#[trigger] adds[i]).color_attachment_index < node0.color_attachments@.len() by {
                lemma_increasing_indices(adds, i);
            }
        }
        let nadd = resolves_to_add.len();
        for ai in 0..nadd
            invariant
                nadd == adds.len(),
                adds == resolves_to_add@,
                n == order.len(),
                order == node_execution_order@,
                oi < n,
                node_id == order[oi as int],
                node0 == g0.spec_node(node_id),
                g0 == *old(graph),
                res0 == *old(results),
                g0.wf(),
                gt.wf(),
                graph.wf(),
                r0 == res0.images@,
                r0.len() == g0.image_usages@.len(),
                nres == g0.image_resources@.len(),
                forall|k: int| 0 <= k < order.len() ==> (#[trigger] order[k]).0 < g0.nodes@.len(),
                graph.nodes@.len() == g0.nodes@.len(),
                graph.input_images == g0.input_images,
                graph.output_images == g0.output_images,
                results.images@.len() == graph.image_usages@.len(),
                forall|u: int| 0 <= u < g0.image_usages@.len() ==> #[trigger] results.images@[u] == r0[u],
                forall|u: int| gt.image_usages@.len() <= u < graph.image_usages@.len() ==> #[trigger] results.images@[u] == Some(adds[u - gt.image_usages@.len()].resolve_spec),
                forall|u: int| 0 <= u < gt.image_usages@.len() ==> #[trigger] results.images@[u] == rt.images@[u],
                forall|u: int| 0 <= u < g0.image_usages@.len() ==> same_but_version(#[trigger] graph.image_usages@[u], g0.image_usages@[u]),
                resolves_frame(g0, gt, r0, nres),
                resolves_frame(gt, *graph, r0, nres),
                g0.image_usages@.len() <= gt.image_usages@.len(),
                rt.images@.len() == gt.image_usages@.len(),
                forall|u: int| 0 <= u < g0.image_usages@.len() ==> #[trigger] rt.images@[u] == r0[u],
                forall|u: int| g0.image_usages@.len() <= u < gt.image_usages@.len() ==> {
                    &&& (#[trigger] rt.images@[u]) is Some
                    &&& (rt.images@[u]->0).samples == SAMPLE_COUNT_1
                },
                graph.image_usages@.len() == gt.image_usages@.len() + ai,
                gt.image_usages@.len() <= g0.image_usages@.len() + color_slots(g0, order, oi as nat),
                forall|i: int| 0 <= i < adds.len() ==> #[trigger] resolve_ready(g0, gt, rt, node_id, adds[i]),
                forall|i: int| 0 <= i < adds.len() ==> i <= (#[trigger] adds[i]).color_attachment_index < node0.color_attachments@.len(),
                forall|i: int, j: int| 0 <= i < j < adds.len() ==> (#[trigger] adds[i]).color_attachment_index < (#[trigger] adds[j]).color_attachment_index,
                forall|k: int, ci: int| 0 <= k < oi && #[trigger] wants_resolve(*graph, g0.spec_node(order[k]), *results, ci)
                    ==> has_resolve(g0, *graph, *results, order[k], ci),
                forall|i: int| 0 <= i < ai ==> has_resolve(g0, *graph, *results, node_id, (#[trigger] adds[i]).color_attachment_index as int),
        {
            let add = &resolves_to_add[ai];
            let ghost ga = *graph;
            let ghost resa = *results;
            proof {
                lemma_frame_trans(g0, gt, ga, r0, nres);
                lemma_ready_later(g0, gt, ga, rt, resa, r0, node_id, adds[ai as int]);
            }
            match apply_resolve(graph, results, node_id, add, Ghost(g0), Ghost(r0)) {
                Ok(_) => {},
                Err(e) => {
                    proof {
                        lemma_color_slots_mono(g0, order, (oi + 1) as nat, order.len());
                        assert(color_slots(g0, order, (oi + 1) as nat) == color_slots(g0, order, oi as nat) + g0.spec_node(order[oi as int]).color_attachments@.len());
                        assert(ai <= adds[ai as int].color_attachment_index);
                    }
                    return Err(e);
                },
            }
            proof {
                let gb = *graph;
                let resb = *results;
                lemma_frame_trans(gt, ga, gb, r0, nres);
                lemma_frame_trans(g0, ga, gb, r0, nres);
                assert forall|u: int| gt.image_usages@.len() <= u < gb.image_usages@.len() implies #[trigger] resb.images@[u] == Some(adds[u - gt.image_usages@.len()].resolve_spec) by {
                    if u < ga.image_usages@.len() {
                        assert(resb.images@[u] == resa.images@[u]);
                    }
                }
                assert forall|k: int, ci: int| 0 <= k < oi && #[trigger] wants_resolve(gb, g0.spec_node(order[k]), resb, ci)
                    implies has_resolve(g0, gb, resb, order[k], ci) by {
                    assert(g0.spec_node(order[k]).usages_below(g0.image_usages@.len()));
                    lemma_wants_shrinks_res(g0, ga, gb, resa, resb, r0, g0.spec_node(order[k]), ci);
                    assert(has_resolve(g0, ga, resa, order[k], ci));
                }
                assert forall|i: int| 0 <= i < ai + 1 implies has_resolve(g0, gb, resb, node_id, (#[trigger] adds[i]).color_attachment_index as int) by {
                    if i < ai {
                        assert(has_resolve(g0, ga, resa, node_id, adds[i].color_attachment_index as int));
                    }
                }
            }
        }
        proof {
            let gf = *graph;
            let resf = *results;
            lemma_frame_trans(g0, gt, gf, r0, nres);
            if nadd > 0 {
                assert(nadd - 1 <= adds[nadd - 1].color_attachment_index);
            }
            assert(color_slots(g0, order, (oi + 1) as nat) == color_slots(g0, order, oi as nat) + node0.color_attachments@.len());
            assert forall|k: int, ci: int| 0 <= k < oi + 1 && (#[trigger] color_write(g0.spec_node(order[k]), ci)) is Some
                implies res0.spec_specification(color_write(g0.spec_node(order[k]), ci)->0) is Some by {
                if k == oi {
                    assert(color_write(gt.spec_node(node_id), ci) == color_write(node0, ci));
                    let w = color_write(node0, ci)->0;
                    assert(w.0 < g0.image_usages@.len());
                    assert(rt.images@[w.0 as int] == r0[w.0 as int]);
                }
            }
            assert forall|k: int, ci: int| 0 <= k < oi + 1 && #[trigger] wants_resolve(gf, g0.spec_node(order[k]), resf, ci)
                implies has_resolve(g0, gf, resf, order[k], ci) by {
                if k == oi {
                    lemma_wants_shrinks_res(g0, gt, gf, rt, resf, r0, node0, ci);
                    assert(wants_resolve(gt, gt.spec_node(node_id), rt, ci));
                    let i = choose|i: int| 0 <= i < adds.len() && (#[trigger] adds[i]).color_attachment_index == ci;
                    assert(has_resolve(g0, gf, resf, node_id, adds[i].color_attachment_index as int));
                }
            }
            assert forall|u: int| g0.image_usages@.len() <= u < gf.image_usages@.len() implies {
                &&& (#[trigger] resf.images@[u]) is Some
                &&& (resf.images@[u]->0).samples == SAMPLE_COUNT_1
            } by {
                if u >= gt.image_usages@.len() {
                    let i = u - gt.image_usages@.len();
                    assert(resolve_ready(g0, gt, rt, node_id, adds[i]));
                } else {
                    assert(resf.images@[u] == rt.images@[u]);
                }
            }
        }
    }
    Ok(())
}
} // verus!
