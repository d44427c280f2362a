use vstd::prelude::*;
use crate::graph::{RenderGraphBuilder, RenderGraphNodeId, RenderGraphImageRead, RenderGraphImageModify, RenderGraphImageUsageId};

verus! {

/// The nodes whose output node `n` consumes (through reads, modifies and sampled images), in
/// the order the planner visits them.
pub open spec fn node_deps(g: RenderGraphBuilder, n: int) -> Seq<int> {
    let node = g.nodes@[n];
    node.image_reads@.map_values(|r: RenderGraphImageRead| g.spec_creator(r.image).0 as int)
        + node.image_modifies@.map_values(|m: RenderGraphImageModify| g.spec_creator(m.input).0 as int)
        + node.sampled_images@.map_values(|s: RenderGraphImageUsageId| g.spec_creator(s).0 as int)
}

/// The node that writes output image `i`.
pub open spec fn output_node(g: RenderGraphBuilder, i: int) -> int {
    g.spec_creator(g.output_images@[i].usage).0 as int
}

pub open spec fn is_output_node(g: RenderGraphBuilder, n: int) -> bool {
    exists|i: int| 0 <= i < g.output_images@.len() && output_node(g, i) == n
}

/// `p` starts at a node that writes an output image and each next node is a dependency of the
/// one before it.
pub open spec fn is_dependency_path(g: RenderGraphBuilder, p: Seq<int>) -> bool {
    &&& p.len() > 0
    &&& is_output_node(g, p[0])
    &&& forall|k: int| 0 <= k < p.len() - 1 ==> #[trigger] node_deps(g, p[k]).contains(p[k + 1])
}

/// Node `n` contributes, directly or not, to some output image.
pub open spec fn contributes_to_output(g: RenderGraphBuilder, n: int) -> bool {
    exists|p: Seq<int>| #[trigger] is_dependency_path(g, p) && p.last() == n
}

/// `rank` orders the nodes that contribute to outputs: nodes with a non-negative rank include
/// every output's writer, and each of their dependencies has a smaller non-negative rank.
/// Nodes with a negative rank are left unconstrained.
pub open spec fn is_dependency_ranking(g: RenderGraphBuilder, rank: Seq<int>) -> bool {
    &&& rank.len() == g.nodes@.len()
    &&& forall|i: int| 0 <= i < g.output_images@.len() ==> rank[#[trigger] output_node(g, i)] >= 0
    &&& forall|n: int, j: int|
        0 <= n < rank.len() && rank[n] >= 0 && 0 <= j < node_deps(g, n).len() ==> 0 <= rank[#[trigger] node_deps(g, n)[j]] < rank[n]
}

/// No node that contributes to an output depends on itself, directly or not. (Such a ranking
/// exists exactly when every dependency path from an output is free of cycles.)
pub open spec fn has_no_cycle_to_outputs(g: RenderGraphBuilder) -> bool {
    exists|rank: Seq<int>| is_dependency_ranking(g, rank)
}

/// Node `n` stands among the first `bound` entries of `order`.
pub open spec fn in_prefix(order: Seq<RenderGraphNodeId>, bound: int, n: int) -> bool {
    exists|k: int| 0 <= k < bound && #[trigger] order[k].0 == n
}

/// Every dependency of each node stands before it.
pub open spec fn is_topological(g: RenderGraphBuilder, order: Seq<RenderGraphNodeId>) -> bool {
    forall|k: int, j: int|
        0 <= k < order.len() && 0 <= j < node_deps(g, order[k].0 as int).len() ==> in_prefix(
            order,
            k,
            #[trigger] node_deps(g, order[k].0 as int)[j],
        )
}

/// The state of the depth-first search between steps.
pub open spec fn order_inv(
    g: RenderGraphBuilder,
    order: Seq<RenderGraphNodeId>,
    visited: Seq<bool>,
) -> bool {
    &&& visited.len() == g.nodes@.len()
    &&& forall|k: int| 0 <= k < order.len() ==> (#[trigger] order[k]).0 < g.nodes@.len()
    &&& order.no_duplicates()
    &&& forall|i: int| 0 <= i < visited.len() ==> (#[trigger] visited[i] <==> in_prefix(order, order.len() as int, i))
    &&& is_topological(g, order)
    &&& forall|k: int| 0 <= k < order.len() ==> contributes_to_output(g, #[trigger] order[k].0 as int)
}

/// The order after the depth-first walk from node `n` appends to `order`: a node already in
/// `order` adds nothing; otherwise its dependencies are walked first, in order, then the node
/// is appended. `rank` bounds the walk.
pub open spec fn dfs_visit(g: RenderGraphBuilder, rank: Seq<int>, order: Seq<RenderGraphNodeId>, n: int) -> Seq<RenderGraphNodeId>
    decreases rank[n], 1int, 0int,
{
    if in_prefix(order, order.len() as int, n) || !(0 <= n < rank.len() && rank[n] >= 0) {
        order
    } else {
        dfs_deps(g, rank, order, n, node_deps(g, n).len()).push(RenderGraphNodeId(n as usize))
    }
}

/// The order after walking the first `i` dependencies of node `n`.
pub open spec fn dfs_deps(g: RenderGraphBuilder, rank: Seq<int>, order: Seq<RenderGraphNodeId>, n: int, i: nat) -> Seq<RenderGraphNodeId>
    decreases rank[n], 0int, i,
{
    if i == 0 || !(0 <= n < rank.len() && rank[n] >= 0) {
        order
    } else {
        let o1 = dfs_deps(g, rank, order, n, (i - 1) as nat);
        let d = node_deps(g, n)[i - 1];
        if 0 <= d < rank.len() && 0 <= rank[d] < rank[n] {
            dfs_visit(g, rank, o1, d)
        } else {
            o1
        }
    }
}

/// The order after walking from the writers of the first `i` output images.
pub open spec fn dfs_outputs(g: RenderGraphBuilder, rank: Seq<int>, i: nat) -> Seq<RenderGraphNodeId>
    decreases i,
{
    if i == 0 {
        Seq::empty()
    } else {
        dfs_visit(g, rank, dfs_outputs(g, rank, (i - 1) as nat), output_node(g, i - 1))
    }
}

/// The order in which the planner runs the nodes: walking depth-first from the writer of each
/// output image in turn, every node after its dependencies (reads, then modifies, then sampled
/// images, each in order).
pub open spec fn spec_node_order(g: RenderGraphBuilder) -> Seq<RenderGraphNodeId> {
    dfs_outputs(g, choose|rank: Seq<int>| is_dependency_ranking(g, rank), g.output_images@.len())
}

/// Whether two nodes could be merged into one renderpass. Merging is not supported yet, so no
/// two nodes can be.
pub fn can_passes_merge(
    _graph: &RenderGraphBuilder,
    _prev: RenderGraphNodeId,
    _next: RenderGraphNodeId,
) -> (r: bool)
    ensures
        !r,
{
    false
}

proof fn lemma_deps_in_range(g: RenderGraphBuilder, n: int, j: int)
    requires
        g.wf(),
        0 <= n < g.nodes@.len(),
        0 <= j < node_deps(g, n).len(),
    ensures
        0 <= node_deps(g, n)[j] < g.nodes@.len(),
{
    let node = g.nodes@[n];
    assert(node.usages_below(g.image_usages@.len()));
    let nr = node.image_reads@.len() as int;
    let nm = node.image_modifies@.len() as int;
    if j < nr {
        g.lemma_usage_wf(node.image_reads@[j].image);
    } else if j < nr + nm {
        g.lemma_usage_wf(node.image_modifies@[j - nr].input);
    } else {
        g.lemma_usage_wf(node.sampled_images@[j - nr - nm]);
    }
}

proof fn lemma_push_keeps_order(
    g: RenderGraphBuilder,
    order: Seq<RenderGraphNodeId>,
    n: RenderGraphNodeId,
)
    requires
        forall|k: int| 0 <= k < order.len() ==> contributes_to_output(g, #[trigger] order[k].0 as int),
        is_topological(g, order),
        contributes_to_output(g, n.0 as int),
        forall|j: int| 0 <= j < node_deps(g, n.0 as int).len() ==> in_prefix(order, order.len() as int, #[trigger] node_deps(g, n.0 as int)[j]),
    ensures
        is_topological(g, order.push(n)),
        forall|k: int| 0 <= k < order.push(n).len() ==> contributes_to_output(g, #[trigger] order.push(n)[k].0 as int),
{
    let o2 = order.push(n);
    assert forall|k: int, j: int|
        0 <= k < o2.len() && 0 <= j < node_deps(g, o2[k].0 as int).len() implies in_prefix(o2, k, #[trigger] node_deps(g, o2[k].0 as int)[j]) by {
        let d = node_deps(g, o2[k].0 as int)[j];
        if k < order.len() {
            assert(in_prefix(order, k, node_deps(g, order[k].0 as int)[j]));
            let k2 = choose|k2: int| 0 <= k2 < k && #[trigger] order[k2].0 == d;
            assert(o2[k2].0 == d);
        } else {
            assert(in_prefix(order, order.len() as int, node_deps(g, n.0 as int)[j]));
            let k2 = choose|k2: int| 0 <= k2 < order.len() && #[trigger] order[k2].0 == d;
            assert(o2[k2].0 == d);
        }
    }
    assert forall|k: int| 0 <= k < o2.len() implies contributes_to_output(g, #[trigger] o2[k].0 as int) by {
        if k < order.len() {
            assert(o2[k] == order[k]);
        }
    }
}

proof fn lemma_extend_keeps_prefix(
    old_order: Seq<RenderGraphNodeId>,
    order: Seq<RenderGraphNodeId>,
    bound: int,
    n: int,
)
    requires
        old_order.len() <= order.len(),
        forall|k: int| 0 <= k < old_order.len() ==> order[k] == old_order[k],
        0 <= bound <= old_order.len(),
        in_prefix(old_order, bound, n),
    ensures
        in_prefix(order, bound, n),
{
    let k = choose|k: int| 0 <= k < bound && #[trigger] old_order[k].0 == n;
    assert(order[k].0 == n);
}

/// Visits `node_id` depth-first: every dependency is placed in `ordered_list` before the node
/// itself. `rank` witnesses that the walk cannot come back to a node still being visited, and
/// `path` that the node contributes to an output.
fn visit_node(
    graph: &RenderGraphBuilder,
    node_id: RenderGraphNodeId,
    visited: &mut Vec<bool>,
    visiting: &mut Vec<bool>,
    ordered_list: &mut Vec<RenderGraphNodeId>,
    Ghost(rank): Ghost<Seq<int>>,
    Ghost(path): Ghost<Seq<int>>,
)
    requires
        graph.wf(),
        is_dependency_ranking(*graph, rank),
        node_id.0 < graph.nodes@.len(),
        rank[node_id.0 as int] >= 0,
        is_dependency_path(*graph, path),
        path.last() == node_id.0,
        order_inv(*graph, old(ordered_list)@, old(visited)@),
        old(visiting)@.len() == graph.nodes@.len(),
        forall|w: int|
            0 <= w < old(visiting)@.len() && #[trigger] old(visiting)@[w] ==> rank[w] > rank[node_id.0 as int]
                && !old(visited)@[w],
    ensures
        order_inv(*graph, final(ordered_list)@, final(visited)@),
        final(visited)@[node_id.0 as int],
        final(visiting)@ == old(visiting)@,
        old(ordered_list)@.len() <= final(ordered_list)@.len(),
        forall|k: int| 0 <= k < old(ordered_list)@.len() ==> final(ordered_list)@[k] == old(ordered_list)@[k],
        forall|w: int| 0 <= w < old(visiting)@.len() && #[trigger] old(visiting)@[w] ==> !final(visited)@[w],
        final(ordered_list)@ == dfs_visit(*graph, rank, old(ordered_list)@, node_id.0 as int),
    decreases rank[node_id.0 as int],
{
    let n = node_id.0;
    if visited[n] {
        return;
    }
    let ghost entry_order = ordered_list@;
    let ghost entry_visiting = visiting@;
    visiting.set(n, true);
    let node = graph.node(node_id);
    let ghost deps = node_deps(*graph, n as int);
    let ghost nr = node.image_reads@.len() as int;
    let ghost nm = node.image_modifies@.len() as int;
    let ghost ns = node.sampled_images@.len() as int;
    proof {
        assert(node.usages_below(graph.image_usages@.len()));
        assert(deps.len() == nr + nm + ns);
    }

    // Nodes that could be merged with this one are visited last, so that they end up adjacent
    // to it in the order.
    let mut merge_candidates: Vec<RenderGraphNodeId> = Vec::new();
    if let Some(depth_attachment) = &node.depth_attachment {
        if let Some(read_image) = depth_attachment.read_image {
            let upstream_node = graph.image_version_info(read_image).creator_node;
            if can_passes_merge(graph, upstream_node, node_id) {
                merge_candidates.push(upstream_node);
            }
        }
    }
    let ncolor = node.color_attachments.len();
    for ci in 0..ncolor
        invariant
            graph.wf(),
            node == graph.spec_node(node_id),
            node_id.0 < graph.nodes@.len(),
            ncolor == node.color_attachments@.len(),
            node.usages_below(graph.image_usages@.len()),
            merge_candidates@.len() == 0,
    {
        if let Some(color_attachment) = &node.color_attachments[ci] {
            if let Some(read_image) = color_attachment.read_image {
                let upstream_node = graph.image_version_info(read_image).creator_node;
                if can_passes_merge(graph, upstream_node, node_id) {
                    merge_candidates.push(upstream_node);
                }
            }
        }
    }

    let nreads = node.image_reads.len();
    for i in 0..nreads
        invariant
            graph.wf(),
            is_dependency_ranking(*graph, rank),
            node == graph.spec_node(node_id),
            n == node_id.0,
            n < graph.nodes@.len(),
            rank[n as int] >= 0,
            is_dependency_path(*graph, path),
            path.last() == n,
            deps == node_deps(*graph, n as int),
            nreads == nr,
            deps.len() == nr + nm + ns,
            nr == node.image_reads@.len(),
            nm == node.image_modifies@.len(),
            ns == node.sampled_images@.len(),
            node.usages_below(graph.image_usages@.len()),
            merge_candidates@.len() == 0,
            order_inv(*graph, ordered_list@, visited@),
            visiting@ == entry_visiting.update(n as int, true),
            entry_visiting.len() == graph.nodes@.len(),
            !visited@[n as int],
            forall|w: int| 0 <= w < entry_visiting.len() && #[trigger] entry_visiting[w] ==> rank[w] > rank[n as int] && !visited@[w],
            entry_order.len() <= ordered_list@.len(),
            forall|k: int| 0 <= k < entry_order.len() ==> ordered_list@[k] == entry_order[k],
            forall|j: int| 0 <= j < i ==> visited@[#[trigger] deps[j]],
            ordered_list@ == dfs_deps(*graph, rank, entry_order, n as int, i as nat),
    {
        let upstream_node = graph.image_version_info(node.image_reads[i].image).creator_node;
        proof {
            assert(deps[i as int] == upstream_node.0);
        }
        visit_dependency(graph, node_id, upstream_node, Ghost(i as int), &merge_candidates, visited, visiting, ordered_list, Ghost(rank), Ghost(path), Ghost(entry_visiting), Ghost(entry_order));
    }

    let nmods = node.image_modifies.len();
    for i in 0..nmods
        invariant
            graph.wf(),
            is_dependency_ranking(*graph, rank),
            node == graph.spec_node(node_id),
            n == node_id.0,
            n < graph.nodes@.len(),
            rank[n as int] >= 0,
            is_dependency_path(*graph, path),
            path.last() == n,
            deps == node_deps(*graph, n as int),
            nmods == nm,
            deps.len() == nr + nm + ns,
            nr == node.image_reads@.len(),
            nm == node.image_modifies@.len(),
            ns == node.sampled_images@.len(),
            node.usages_below(graph.image_usages@.len()),
            merge_candidates@.len() == 0,
            order_inv(*graph, ordered_list@, visited@),
            visiting@ == entry_visiting.update(n as int, true),
            entry_visiting.len() == graph.nodes@.len(),
            !visited@[n as int],
            forall|w: int| 0 <= w < entry_visiting.len() && #[trigger] entry_visiting[w] ==> rank[w] > rank[n as int] && !visited@[w],
            entry_order.len() <= ordered_list@.len(),
            forall|k: int| 0 <= k < entry_order.len() ==> ordered_list@[k] == entry_order[k],
            forall|j: int| 0 <= j < nr + i ==> visited@[#[trigger] deps[j]],
            ordered_list@ == dfs_deps(*graph, rank, entry_order, n as int, (nr + i) as nat),
    {
        let upstream_node = graph.image_version_info(node.image_modifies[i].input).creator_node;
        proof {
            assert(deps[nr + i] == upstream_node.0);
        }
        visit_dependency(graph, node_id, upstream_node, Ghost(nr + i), &merge_candidates, visited, visiting, ordered_list, Ghost(rank), Ghost(path), Ghost(entry_visiting), Ghost(entry_order));
    }

    let nsampled = node.sampled_images.len();
    for i in 0..nsampled
        invariant
            graph.wf(),
            is_dependency_ranking(*graph, rank),
            node == graph.spec_node(node_id),
            n == node_id.0,
            n < graph.nodes@.len(),
            rank[n as int] >= 0,
            is_dependency_path(*graph, path),
            path.last() == n,
            deps == node_deps(*graph, n as int),
            nsampled == ns,
            deps.len() == nr + nm + ns,
            nr == node.image_reads@.len(),
            nm == node.image_modifies@.len(),
            ns == node.sampled_images@.len(),
            node.usages_below(graph.image_usages@.len()),
            merge_candidates@.len() == 0,
            order_inv(*graph, ordered_list@, visited@),
            visiting@ == entry_visiting.update(n as int, true),
            entry_visiting.len() == graph.nodes@.len(),
            !visited@[n as int],
            forall|w: int| 0 <= w < entry_visiting.len() && #[trigger] entry_visiting[w] ==> rank[w] > rank[n as int] && !visited@[w],
            entry_order.len() <= ordered_list@.len(),
            forall|k: int| 0 <= k < entry_order.len() ==> ordered_list@[k] == entry_order[k],
            forall|j: int| 0 <= j < nr + nm + i ==> visited@[#[trigger] deps[j]],
            ordered_list@ == dfs_deps(*graph, rank, entry_order, n as int, (nr + nm + i) as nat),
    {
        let upstream_node = graph.image_version_info(node.sampled_images[i]).creator_node;
        proof {
            assert(deps[nr + nm + i] == upstream_node.0);
        }
        visit_dependency(graph, node_id, upstream_node, Ghost(nr + nm + i), &merge_candidates, visited, visiting, ordered_list, Ghost(rank), Ghost(path), Ghost(entry_visiting), Ghost(entry_order));
    }

    // The delayed merge candidates (none while merging is unsupported)
    for mi in 0..merge_candidates.len()
        invariant
            merge_candidates@.len() == 0,
    {
    }

    proof {
        assert forall|j: int| 0 <= j < deps.len() implies in_prefix(ordered_list@, ordered_list@.len() as int, #[trigger] deps[j]) by {
            lemma_deps_in_range(*graph, n as int, j);
            assert(visited@[deps[j]]);
        }
        lemma_push_keeps_order(*graph, ordered_list@, node_id);
        assert(contributes_to_output(*graph, n as int)) by {
            assert(is_dependency_path(*graph, path) && path.last() == n);
        }
    }
    let ghost before_push = ordered_list@;
    ordered_list.push(node_id);
    visited.set(n, true);
    visiting.set(n, false);
    proof {
        let o2 = ordered_list@;
        assert(o2[before_push.len() as int].0 == n);
        assert forall|a: int, b: int| 0 <= a < o2.len() && 0 <= b < o2.len() && a != b implies o2[a] != o2[b] by {
            if a < before_push.len() && b < before_push.len() {
                assert(o2[a] == before_push[a] && o2[b] == before_push[b]);
            } else if a < before_push.len() {
                assert(o2[a] == before_push[a]);
                if o2[a] == o2[b] {
                    assert(in_prefix(before_push, before_push.len() as int, n as int));
                }
            } else if b < before_push.len() {
                assert(o2[b] == before_push[b]);
                if o2[a] == o2[b] {
                    assert(in_prefix(before_push, before_push.len() as int, n as int));
                }
            }
        }
        assert forall|i: int| 0 <= i < visited@.len() implies (#[trigger] visited@[i] <==> in_prefix(o2, o2.len() as int, i)) by {
            if i == n {
                assert(o2[before_push.len() as int].0 == i);
            } else {
                if in_prefix(before_push, before_push.len() as int, i) {
                    lemma_extend_keeps_prefix(before_push, o2, before_push.len() as int, i);
                }
                if in_prefix(o2, o2.len() as int, i) {
                    let k = choose|k: int| 0 <= k < o2.len() && #[trigger] o2[k].0 == i;
                    assert(k < before_push.len());
                    assert(before_push[k].0 == i);
                }
            }
        }
        assert forall|k: int| 0 <= k < o2.len() implies (#[trigger] o2[k]).0 < graph.nodes@.len() by {
            if k < before_push.len() {
                assert(o2[k] == before_push[k]);
            }
        }
    }
}

/// Visits one dependency of `node_id` unless it is a merge candidate.
fn visit_dependency(
    graph: &RenderGraphBuilder,
    node_id: RenderGraphNodeId,
    upstream_node: RenderGraphNodeId,
    Ghost(j): Ghost<int>,
    merge_candidates: &Vec<RenderGraphNodeId>,
    visited: &mut Vec<bool>,
    visiting: &mut Vec<bool>,
    ordered_list: &mut Vec<RenderGraphNodeId>,
    Ghost(rank): Ghost<Seq<int>>,
    Ghost(path): Ghost<Seq<int>>,
    Ghost(entry_visiting): Ghost<Seq<bool>>,
    Ghost(entry_order): Ghost<Seq<RenderGraphNodeId>>,
)
    requires
        graph.wf(),
        is_dependency_ranking(*graph, rank),
        node_id.0 < graph.nodes@.len(),
        rank[node_id.0 as int] >= 0,
        is_dependency_path(*graph, path),
        path.last() == node_id.0,
        0 <= j < node_deps(*graph, node_id.0 as int).len(),
        node_deps(*graph, node_id.0 as int)[j] == upstream_node.0,
        merge_candidates@.len() == 0,
        order_inv(*graph, old(ordered_list)@, old(visited)@),
        old(visiting)@ == entry_visiting.update(node_id.0 as int, true),
        entry_visiting.len() == graph.nodes@.len(),
        !old(visited)@[node_id.0 as int],
        forall|w: int| 0 <= w < entry_visiting.len() && #[trigger] entry_visiting[w] ==> rank[w] > rank[node_id.0 as int] && !old(visited)@[w],
        entry_order.len() <= old(ordered_list)@.len(),
        forall|k: int| 0 <= k < entry_order.len() ==> old(ordered_list)@[k] == entry_order[k],
    ensures
        order_inv(*graph, final(ordered_list)@, final(visited)@),
        final(visiting)@ == old(visiting)@,
        !final(visited)@[node_id.0 as int],
        forall|w: int| 0 <= w < entry_visiting.len() && #[trigger] entry_visiting[w] ==> !final(visited)@[w],
        entry_order.len() <= final(ordered_list)@.len(),
        forall|k: int| 0 <= k < entry_order.len() ==> final(ordered_list)@[k] == entry_order[k],
        final(visited)@[upstream_node.0 as int],
        forall|i: int| 0 <= i < old(visited)@.len() && #[trigger] old(visited)@[i] ==> final(visited)@[i],
        final(ordered_list)@ == dfs_visit(*graph, rank, old(ordered_list)@, upstream_node.0 as int),
    decreases rank[node_id.0 as int], 0int,
{
    let ghost n = node_id.0 as int;
    let ghost deps = node_deps(*graph, n);
    proof {
        lemma_deps_in_range(*graph, n, j);
        assert(deps.contains(upstream_node.0 as int));
        let p2 = path.push(upstream_node.0 as int);
        assert forall|k: int| 0 <= k < p2.len() - 1 implies #[trigger] node_deps(*graph, p2[k]).contains(p2[k + 1]) by {
            if k < path.len() - 1 {
                assert(p2[k] == path[k] && p2[k + 1] == path[k + 1]);
            }
        }
        assert(is_dependency_path(*graph, p2));
        assert(p2[0] == path[0]);
    }
    let mut skip = false;
    for mi in 0..merge_candidates.len()
        invariant
            merge_candidates@.len() == 0,
            !skip,
    {
        if merge_candidates[mi] == upstream_node {
            skip = true;
        }
    }
    let ghost old_order = ordered_list@;
    let ghost old_visited = visited@;
    visit_node(graph, upstream_node, visited, visiting, ordered_list, Ghost(rank), Ghost(path.push(upstream_node.0 as int)));
    proof {
        assert(visiting@[n]);
        assert forall|w: int| 0 <= w < entry_visiting.len() && #[trigger] entry_visiting[w] implies !visited@[w] by {
            assert(visiting@[w]);
        }
        assert forall|i: int| 0 <= i < old_visited.len() && #[trigger] old_visited[i] implies visited@[i] by {
            lemma_extend_keeps_prefix(old_order, ordered_list@, old_order.len() as int, i);
        }
        assert forall|k: int| 0 <= k < entry_order.len() implies ordered_list@[k] == entry_order[k] by {
            assert(old_order[k] == entry_order[k]);
        }
    }
}


/// A topological order that holds every output's writer holds every node on every dependency
/// path from an output.
proof fn lemma_path_in_order(g: RenderGraphBuilder, order: Seq<RenderGraphNodeId>, p: Seq<int>, k: int)
    requires
        is_topological(g, order),
        forall|i: int| 0 <= i < g.output_images@.len() ==> in_prefix(order, order.len() as int, #[trigger] output_node(g, i)),
        is_dependency_path(g, p),
        0 <= k < p.len(),
    ensures
        in_prefix(order, order.len() as int, p[k]),
    decreases k,
{
    if k == 0 {
        let i = choose|i: int| 0 <= i < g.output_images@.len() && output_node(g, i) == p[0];
        assert(in_prefix(order, order.len() as int, output_node(g, i)));
    } else {
        lemma_path_in_order(g, order, p, k - 1);
        let m = choose|m: int| 0 <= m < order.len() && #[trigger] order[m].0 == p[k - 1];
        let kk = k - 1;
        assert(node_deps(g, p[kk]).contains(p[kk + 1]));
        assert(kk + 1 == k);
        let ds = node_deps(g, p[k - 1]);
        let j = choose|j: int| 0 <= j < ds.len() && #[trigger] ds[j] == p[k];
        assert(in_prefix(order, m, node_deps(g, order[m].0 as int)[j]));
        let m2 = choose|m2: int| 0 <= m2 < m && #[trigger] order[m2].0 == p[k];
        assert(order[m2].0 == p[k]);
    }
}

/// The order in which the nodes must execute: every node that contributes to an output image,
/// each after all the nodes it depends on. Nodes that contribute to no output are culled.
pub fn determine_node_order(graph: &RenderGraphBuilder) -> (ordered_list: Vec<RenderGraphNodeId>)
    requires
        graph.wf(),
        has_no_cycle_to_outputs(*graph),
    ensures
        ordered_list@.no_duplicates(),
        forall|k: int| 0 <= k < ordered_list@.len() ==> (#[trigger] ordered_list@[k]).0 < graph.nodes@.len(),
        is_topological(*graph, ordered_list@),
        forall|n: int| 0 <= n < graph.nodes@.len() ==> (in_prefix(ordered_list@, ordered_list@.len() as int, n) <==> #[trigger] contributes_to_output(*graph, n)),
        ordered_list@ == spec_node_order(*graph),
{
    let ghost rank = choose|rank: Seq<int>| is_dependency_ranking(*graph, rank);
    let n = graph.nodes.len();
    let mut visiting: Vec<bool> = vec![false; n];
    let mut visited: Vec<bool> = vec![false; n];
    let mut ordered_list: Vec<RenderGraphNodeId> = Vec::new();
    let nout = graph.output_images.len();
    for oi in 0..nout
        invariant
            graph.wf(),
            is_dependency_ranking(*graph, rank),
            n == graph.nodes@.len(),
            nout == graph.output_images@.len(),
            order_inv(*graph, ordered_list@, visited@),
            visiting@.len() == n,
            forall|w: int| 0 <= w < n ==> !(#[trigger] visiting@[w]),
            forall|i: int| 0 <= i < oi ==> in_prefix(ordered_list@, ordered_list@.len() as int, #[trigger] output_node(*graph, i)),
            rank == choose|rank: Seq<int>| is_dependency_ranking(*graph, rank),
            ordered_list@ == dfs_outputs(*graph, rank, oi as nat),
    {
        let output_usage = graph.output_images[oi].usage;
        let output_node_id = graph.image_version_info(output_usage).creator_node;
        proof {
            graph.lemma_usage_wf(output_usage);
            assert(output_node(*graph, oi as int) == output_node_id.0);
            assert(rank[output_node(*graph, oi as int)] >= 0);
            let p = seq![output_node_id.0 as int];
            assert(p[0] == output_node(*graph, oi as int));
            assert(is_output_node(*graph, p[0]));
            assert(is_dependency_path(*graph, p));
        }
        let ghost old_order = ordered_list@;
        let ghost start_path = seq![output_node_id.0 as int];
        visit_node(graph, output_node_id, &mut visited, &mut visiting, &mut ordered_list, Ghost(rank), Ghost(start_path));
        proof {
            assert forall|i: int| 0 <= i < oi + 1 implies in_prefix(ordered_list@, ordered_list@.len() as int, #[trigger] output_node(*graph, i)) by {
                if i < oi {
                    lemma_extend_keeps_prefix(old_order, ordered_list@, old_order.len() as int, output_node(*graph, i));
                } else {
                    assert(visited@[output_node_id.0 as int]);
                }
            }
        }
    }
    proof {
        assert forall|m: int| 0 <= m < graph.nodes@.len() implies (in_prefix(ordered_list@, ordered_list@.len() as int, m) <==> #[trigger] contributes_to_output(*graph, m)) by {
            if in_prefix(ordered_list@, ordered_list@.len() as int, m) {
                let k = choose|k: int| 0 <= k < ordered_list@.len() && #[trigger] ordered_list@[k].0 == m;
                assert(contributes_to_output(*graph, ordered_list@[k].0 as int));
            }
            if contributes_to_output(*graph, m) {
                let p = choose|p: Seq<int>| #[trigger] is_dependency_path(*graph, p) && p.last() == m;
                lemma_path_in_order(*graph, ordered_list@, p, p.len() - 1);
            }
        }
    }
    ordered_list
}

} // verus!
