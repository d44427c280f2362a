use vstd::prelude::*;
use crate::image_spec::Extent2D;
use crate::graph::{
    AttachmentClearValue, ClearColorValue, PhysicalImageId, PhysicalImageViewId, RenderGraphBuilder,
    RenderGraphNodeId,
};
use crate::passes::{PrepassBarrier, RenderGraphPass, RenderGraphPassAttachment, IMAGE_LAYOUT_UNDEFINED};
use crate::node_barriers::{find_barrier, NodeImageBarrier, RenderGraphNodeImageBarriers};
use crate::pass_barriers::{SubpassDependency, pass_node, barriers_of};
use crate::plan_error::RenderGraphPlanError;
use crate::descriptions::copy_vec;

verus! {

/// How a renderpass treats one attachment (`VkAttachmentDescription`).
#[derive(Clone, Copy, Debug, PartialEq, Eq, Hash, Structural)]
pub struct AttachmentDescription {
    pub format: i32,
    pub samples: u32,
    pub load_op: i32,
    pub store_op: i32,
    pub stencil_load_op: i32,
    pub stencil_store_op: i32,
    pub initial_layout: i32,
    pub final_layout: i32,
}

/// Which attachment a subpass slot refers to, if any.
#[derive(Clone, Copy, Debug, PartialEq, Eq, Hash, Structural)]
pub enum AttachmentIndex {
    Unused,
    Index(u32),
}

/// A subpass slot: the attachment and the layout it is used in (`VkAttachmentReference`).
#[derive(Clone, Copy, Debug, PartialEq, Eq, Hash, Structural)]
pub struct AttachmentReference {
    pub attachment: AttachmentIndex,
    pub layout: i32,
}

/// A graphics subpass: its color, resolve and depth/stencil slots.
#[derive(Clone, Debug, PartialEq, Eq, Hash)]
pub struct SubpassDescription {
    pub color_attachments: Vec<AttachmentReference>,
    pub resolve_attachments: Vec<AttachmentReference>,
    pub depth_stencil_attachment: Option<AttachmentReference>,
}

/// Everything needed to create a renderpass.
#[derive(Clone, Debug, PartialEq, Eq, Hash)]
pub struct RenderPassDescription {
    pub attachments: Vec<AttachmentDescription>,
    pub subpasses: Vec<SubpassDescription>,
    pub dependencies: Vec<SubpassDependency>,
}

impl SubpassDescription {
    /// The two subpasses have the same slots.
    pub open spec fn same_as(self, other: SubpassDescription) -> bool {
        &&& self.color_attachments@ == other.color_attachments@
        &&& self.resolve_attachments@ == other.resolve_attachments@
        &&& self.depth_stencil_attachment == other.depth_stencil_attachment
    }

    /// A copy of the subpass.
    pub fn duplicate(&self) -> (r: Self)
        ensures
            r.same_as(*self),
    {
        SubpassDescription {
            color_attachments: copy_vec(&self.color_attachments),
            resolve_attachments: copy_vec(&self.resolve_attachments),
            depth_stencil_attachment: self.depth_stencil_attachment,
        }
    }
}

impl RenderPassDescription {
    /// The two descriptions have the same attachments, subpasses and dependencies, in order.
    pub open spec fn same_as(self, other: RenderPassDescription) -> bool {
        &&& self.attachments@ == other.attachments@
        &&& self.dependencies@ == other.dependencies@
        &&& self.subpasses@.len() == other.subpasses@.len()
        &&& forall|i: int| 0 <= i < self.subpasses@.len() ==> (#[trigger] self.subpasses@[i]).same_as(other.subpasses@[i])
    }

    /// A copy of the description.
    pub fn duplicate(&self) -> (r: Self)
        ensures
            r.same_as(*self),
    {
        let s = &self.subpasses;
        let mut subpasses: Vec<SubpassDescription> = Vec::new();
        let n = s.len();
        for i in 0..n
            invariant
                n == s@.len(),
                subpasses@.len() == i,
                forall|j: int| 0 <= j < i ==> (#[trigger] subpasses@[j]).same_as(s@[j]),
        {
            subpasses.push(s[i].duplicate());
        }
        RenderPassDescription {
            attachments: copy_vec(&self.attachments),
            subpasses,
            dependencies: copy_vec(&self.dependencies),
        }
    }
}

/// A planned renderpass: its description, the nodes it runs, the image views bound to its
/// attachments and their clear values, and the barrier to run before it.
#[derive(Clone, Debug)]
pub struct RenderGraphOutputPass {
    pub subpass_nodes: Vec<RenderGraphNodeId>,
    pub description: RenderPassDescription,
    pub extents: Extent2D,
    pub attachment_images: Vec<PhysicalImageViewId>,
    pub clear_values: Vec<AttachmentClearValue>,
    pub pre_pass_barrier: Option<PrepassBarrier>,
    pub debug_name: Option<&'static str>,
}

pub open spec fn spec_attachment_description(a: RenderGraphPassAttachment) -> AttachmentDescription {
    AttachmentDescription {
        format: a.format,
        samples: a.samples,
        load_op: a.load_op,
        store_op: a.store_op,
        stencil_load_op: a.stencil_load_op,
        stencil_store_op: a.stencil_store_op,
        initial_layout: a.initial_layout,
        final_layout: a.final_layout,
    }
}

impl RenderGraphPassAttachment {
    /// The description of the attachment for the renderpass.
    pub fn create_attachment_description(&self) -> (r: AttachmentDescription)
        ensures
            r == spec_attachment_description(*self),
    {
        AttachmentDescription {
            format: self.format,
            samples: self.samples,
            load_op: self.load_op,
            store_op: self.store_op,
            stencil_load_op: self.stencil_load_op,
            stencil_store_op: self.stencil_store_op,
            initial_layout: self.initial_layout,
            final_layout: self.final_layout,
        }
    }
}

/// The clear value of an attachment: the one it was given, or all zeros.
pub open spec fn spec_clear_value(a: RenderGraphPassAttachment) -> AttachmentClearValue {
    match a.clear_color {
        Some(c) => c,
        None => AttachmentClearValue::Color(ClearColorValue { r_bits: 0, g_bits: 0, b_bits: 0, a_bits: 0 }),
    }
}

/// A slot that refers to nothing.
pub open spec fn unused_reference() -> AttachmentReference {
    AttachmentReference { attachment: AttachmentIndex::Unused, layout: IMAGE_LAYOUT_UNDEFINED }
}

/// The slot bound to attachment `ai`, used in the layout the node's barrier asks for its image.
pub open spec fn reference_for(atts: Seq<RenderGraphPassAttachment>, barriers: Seq<NodeImageBarrier>, ai: usize) -> AttachmentReference {
    let p = atts[ai as int].image->0;
    AttachmentReference {
        attachment: AttachmentIndex::Index(ai as u32),
        layout: barriers[find_barrier(barriers, p, barriers.len())].barrier.layout,
    }
}

/// A slot's attachment exists, has a physical image, and the node has a barrier for it.
pub open spec fn slot_resolvable(atts: Seq<RenderGraphPassAttachment>, barriers: Seq<NodeImageBarrier>, slot: Option<usize>) -> bool {
    slot is Some ==> {
        let ai = slot->0;
        &&& ai < atts.len()
        &&& atts[ai as int].image is Some
        &&& find_barrier(barriers, atts[ai as int].image->0, barriers.len()) >= 0
    }
}

/// One past the last used slot among the first `n`.
pub open spec fn used_slot_count(slots: Seq<Option<usize>>, n: nat) -> nat
    decreases n,
{
    if n == 0 {
        0
    } else if slots[n - 1] is Some {
        n
    } else {
        used_slot_count(slots, (n - 1) as nat)
    }
}

/// The slot references of a subpass, up to the last used slot, with unused slots in between.
pub open spec fn slot_references(atts: Seq<RenderGraphPassAttachment>, barriers: Seq<NodeImageBarrier>, slots: Seq<Option<usize>>) -> Seq<AttachmentReference> {
    Seq::new(used_slot_count(slots, slots.len()), |i: int| if slots[i] is Some {
        reference_for(atts, barriers, slots[i]->0)
    } else {
        unused_reference()
    })
}

/// A pass can be turned into a renderpass: it has a size, every attachment has a view, and
/// every slot of its subpass can be resolved.
pub open spec fn pass_convertible(p: RenderGraphPass, barriers: Seq<NodeImageBarrier>) -> bool {
    let s = p.subpasses@[0];
    &&& p.extents is Some
    &&& forall|j: int| 0 <= j < p.attachments@.len() ==> (#[trigger] p.attachments@[j]).image_view is Some
    &&& forall|i: int| 0 <= i < s.color_attachments@.len() ==> slot_resolvable(p.attachments@, barriers, #[trigger] s.color_attachments@[i])
    &&& forall|i: int| 0 <= i < s.resolve_attachments@.len() ==> slot_resolvable(p.attachments@, barriers, #[trigger] s.resolve_attachments@[i])
    &&& slot_resolvable(p.attachments@, barriers, s.depth_attachment)
}

/// The renderpass made from a pass.
pub open spec fn output_pass_matches(
    out: RenderGraphOutputPass,
    g: RenderGraphBuilder,
    p: RenderGraphPass,
    barriers: Seq<NodeImageBarrier>,
    deps: Seq<SubpassDependency>,
) -> bool {
    let s = p.subpasses@[0];
    let atts = p.attachments@;
    &&& out.subpass_nodes@ == seq![s.node]
    &&& out.description.attachments@ == atts.map_values(|a: RenderGraphPassAttachment| spec_attachment_description(a))
    &&& out.description.subpasses@.len() == 1
    &&& out.description.subpasses@[0].color_attachments@ == slot_references(atts, barriers, s.color_attachments@)
    &&& out.description.subpasses@[0].resolve_attachments@ == slot_references(atts, barriers, s.resolve_attachments@)
    &&& out.description.subpasses@[0].depth_stencil_attachment == (if s.depth_attachment is Some {
        Some(reference_for(atts, barriers, s.depth_attachment->0))
    } else {
        None
    })
    &&& out.description.dependencies@ == deps
    &&& out.extents == p.extents->0
    &&& out.attachment_images@ == atts.map_values(|a: RenderGraphPassAttachment| a.image_view->0)
    &&& out.clear_values@ == atts.map_values(|a: RenderGraphPassAttachment| spec_clear_value(a))
    &&& out.pre_pass_barrier == p.pre_pass_barrier
    &&& out.debug_name == g.nodes@[s.node.0 as int].name
}

/// A renderpass made from a pass describes each attachment with the attachment's own format,
/// sample count, operations and layouts, clears it with its clear value when it has one, binds
/// its view, and uses the depth slot's attachment in the layout of the node's barrier for its
/// image; each used color slot refers to its attachment in the layout of that image's barrier.
pub proof fn lemma_output_pass_keeps_attachments(
    out: RenderGraphOutputPass,
    g: RenderGraphBuilder,
    p: RenderGraphPass,
    barriers: Seq<NodeImageBarrier>,
    deps: Seq<SubpassDependency>,
    i: int,
)
    requires
        output_pass_matches(out, g, p, barriers, deps),
        0 <= i < p.attachments@.len(),
    ensures
        ({
            let a = p.attachments@[i];
            let d = out.description.attachments@[i];
            &&& out.description.attachments@.len() == p.attachments@.len()
            &&& d.format == a.format && d.samples == a.samples
            &&& d.load_op == a.load_op && d.store_op == a.store_op
            &&& d.stencil_load_op == a.stencil_load_op && d.stencil_store_op == a.stencil_store_op
            &&& d.initial_layout == a.initial_layout && d.final_layout == a.final_layout
            &&& out.attachment_images@[i] == a.image_view->0
            &&& a.clear_color is Some ==> out.clear_values@[i] == a.clear_color->0
        }),
        ({
            let s = p.subpasses@[0];
            &&& s.depth_attachment is Some ==> {
                let r = out.description.subpasses@[0].depth_stencil_attachment->0;
                &&& out.description.subpasses@[0].depth_stencil_attachment is Some
                &&& r.attachment == AttachmentIndex::Index((s.depth_attachment->0) as u32)
                &&& r.layout == barriers[find_barrier(barriers, p.attachments@[s.depth_attachment->0 as int].image->0, barriers.len())].barrier.layout
            }
            &&& s.depth_attachment is None ==> out.description.subpasses@[0].depth_stencil_attachment is None
        }),
{
}

/// Each used color slot of the subpass refers to its attachment, in the layout of the node's
/// barrier for that attachment's image.
pub proof fn lemma_output_pass_color_reference(
    out: RenderGraphOutputPass,
    g: RenderGraphBuilder,
    p: RenderGraphPass,
    barriers: Seq<NodeImageBarrier>,
    deps: Seq<SubpassDependency>,
    j: int,
)
    requires
        output_pass_matches(out, g, p, barriers, deps),
        0 <= j < p.subpasses@[0].color_attachments@.len(),
        p.subpasses@[0].color_attachments@[j] is Some,
    ensures
        ({
            let ai = p.subpasses@[0].color_attachments@[j]->0;
            let r = out.description.subpasses@[0].color_attachments@[j];
            &&& j < out.description.subpasses@[0].color_attachments@.len()
            &&& r.attachment == AttachmentIndex::Index(ai as u32)
            &&& r.layout == barriers[find_barrier(barriers, p.attachments@[ai as int].image->0, barriers.len())].barrier.layout
        }),
{
    let slots = p.subpasses@[0].color_attachments@;
    lemma_used_slot_count_covers(slots, slots.len(), j);
}

proof fn lemma_used_slot_count_covers(slots: Seq<Option<usize>>, n: nat, j: int)
    requires
        0 <= j < n <= slots.len(),
        slots[j] is Some,
    ensures
        j < used_slot_count(slots, n),
    decreases n,
{
    if n > 0 && slots[n - 1] is None {
        lemma_used_slot_count_covers(slots, (n - 1) as nat, j);
    }
}

fn find_barrier_index(list: &Vec<NodeImageBarrier>, p: PhysicalImageId) -> (r: Option<usize>)
    ensures
        r is None <==> find_barrier(list@, p, list@.len()) < 0,
        r is Some ==> r->0 as int == find_barrier(list@, p, list@.len()) && r->0 < list@.len(),
{
    let n = list.len();
    for k in 0..n
        invariant
            n == list@.len(),
            find_barrier(list@, p, k as nat) == -1,
    {
        if list[k].image == p {
            proof {
                lemma_find_barrier_stays(list@, p, (k + 1) as nat, n as nat);
            }
            return Some(k);
        }
    }
    None
}

proof fn lemma_find_barrier_stays(list: Seq<NodeImageBarrier>, p: PhysicalImageId, i: nat, n: nat)
    requires
        i <= n,
        find_barrier(list, p, i) >= 0,
    ensures
        find_barrier(list, p, n) == find_barrier(list, p, i),
        0 <= find_barrier(list, p, n) < i,
    decreases n - i,
{
    if i < n {
        lemma_find_barrier_stays(list, p, i, (n - 1) as nat);
    } else {
        lemma_find_barrier_bound(list, p, n);
    }
}

proof fn lemma_find_barrier_bound(list: Seq<NodeImageBarrier>, p: PhysicalImageId, n: nat)
    ensures
        find_barrier(list, p, n) < n as int,
        find_barrier(list, p, n) >= -1,
    decreases n,
{
    if n > 0 {
        lemma_find_barrier_bound(list, p, (n - 1) as nat);
    }
}

/// The reference for a used slot, or `None` when it cannot be resolved.
fn slot_reference(
    atts: &Vec<RenderGraphPassAttachment>,
    barriers: &Vec<NodeImageBarrier>,
    ai: usize,
) -> (r: Option<AttachmentReference>)
    ensures
        r is Some <==> slot_resolvable(atts@, barriers@, Some(ai)),
        r is Some ==> r->0 == reference_for(atts@, barriers@, ai),
{
    if ai >= atts.len() {
        return None;
    }
    match atts[ai].image {
        None => None,
        Some(p) => match find_barrier_index(barriers, p) {
            None => None,
            Some(bi) => Some(AttachmentReference { attachment: AttachmentIndex::Index(ai as u32), layout: barriers[bi].barrier.layout }),
        },
    }
}

proof fn lemma_unused_after_count(slots: Seq<Option<usize>>, n: nat)
    requires
        n <= slots.len(),
    ensures
        forall|j: int| used_slot_count(slots, n) <= j < n ==> slots[j] is None,
    decreases n,
{
    if n > 0 {
        lemma_unused_after_count(slots, (n - 1) as nat);
    }
}

proof fn lemma_used_slot_count_bound(slots: Seq<Option<usize>>, n: nat)
    ensures
        used_slot_count(slots, n) <= n,
        used_slot_count(slots, n) > 0 ==> slots[used_slot_count(slots, n) - 1] is Some,
    decreases n,
{
    if n > 0 {
        lemma_used_slot_count_bound(slots, (n - 1) as nat);
    }
}

/// The references of a list of slots, padded with unused slots up to each used one.
fn slot_reference_list(
    atts: &Vec<RenderGraphPassAttachment>,
    barriers: &Vec<NodeImageBarrier>,
    slots: &Vec<Option<usize>>,
) -> (r: Option<Vec<AttachmentReference>>)
    ensures
        r is Some <==> forall|i: int| 0 <= i < slots@.len() ==> slot_resolvable(atts@, barriers@, #[trigger] slots@[i]),
        r is Some ==> r->0@ == slot_references(atts@, barriers@, slots@),
{
    let mut refs: Vec<AttachmentReference> = Vec::new();
    let n = slots.len();
    for i in 0..n
        invariant
            n == slots@.len(),
            forall|j: int| 0 <= j < i ==> slot_resolvable(atts@, barriers@, #[trigger] slots@[j]),
            refs@.len() == used_slot_count(slots@, i as nat),
            forall|j: int| 0 <= j < refs@.len() ==> #[trigger] refs@[j] == (if slots@[j] is Some {
                reference_for(atts@, barriers@, slots@[j]->0)
            } else {
                unused_reference()
            }),
    {
        proof {
            lemma_used_slot_count_bound(slots@, i as nat);
            lemma_unused_after_count(slots@, i as nat);
        }
        match slots[i] {
            None => {},
            Some(ai) => {
                match slot_reference(atts, barriers, ai) {
                    None => {
                        return None;
                    },
                    Some(reference) => {
                        while refs.len() < i
                            invariant
                                n == slots@.len(),
                                i < n,
                                refs@.len() <= i,
                                refs@.len() >= used_slot_count(slots@, i as nat),
                                forall|j: int| used_slot_count(slots@, i as nat) <= j < i ==> slots@[j] is None,
                                forall|j: int| 0 <= j < refs@.len() ==> #[trigger] refs@[j] == (if slots@[j] is Some {
                                    reference_for(atts@, barriers@, slots@[j]->0)
                                } else {
                                    unused_reference()
                                }),
                            decreases i - refs@.len(),
                        {
                            refs.push(AttachmentReference { attachment: AttachmentIndex::Unused, layout: IMAGE_LAYOUT_UNDEFINED });
                        }
                        refs.push(reference);
                    },
                }
            },
        }
    }
    proof {
        assert(refs@ =~= slot_references(atts@, barriers@, slots@));
    }
    Some(refs)
}

/// Turns a planned pass into a renderpass, or `None` when it cannot be.
fn create_output_pass(
    graph: &RenderGraphBuilder,
    pass: RenderGraphPass,
    barriers: &Vec<NodeImageBarrier>,
    dependencies: &Vec<SubpassDependency>,
) -> (r: Option<RenderGraphOutputPass>)
    requires
        pass.subpasses@.len() == 1,
        pass.subpasses@[0].node.0 < graph.nodes@.len(),
    ensures
        r is Some <==> pass_convertible(pass, barriers@),
        r is Some ==> output_pass_matches(r->0, *graph, pass, barriers@, dependencies@),
{
    let extents = match pass.extents {
        Some(e) => e,
        None => {
            return None;
        },
    };
    let subpass = &pass.subpasses[0];
    let color_attachments = match slot_reference_list(&pass.attachments, barriers, &subpass.color_attachments) {
        Some(v) => v,
        None => {
            return None;
        },
    };
    let resolve_attachments = match slot_reference_list(&pass.attachments, barriers, &subpass.resolve_attachments) {
        Some(v) => v,
        None => {
            return None;
        },
    };
    let depth_stencil_attachment = match subpass.depth_attachment {
        None => None,
        Some(ai) => match slot_reference(&pass.attachments, barriers, ai) {
            None => {
                return None;
            },
            Some(reference) => Some(reference),
        },
    };
    let mut descriptions: Vec<AttachmentDescription> = Vec::new();
    let mut attachment_images: Vec<PhysicalImageViewId> = Vec::new();
    let mut clear_values: Vec<AttachmentClearValue> = Vec::new();
    let na = pass.attachments.len();
    for j in 0..na
        invariant
            na == pass.attachments@.len(),
            descriptions@ == pass.attachments@.take(j as int).map_values(|a: RenderGraphPassAttachment| spec_attachment_description(a)),
            attachment_images@ == pass.attachments@.take(j as int).map_values(|a: RenderGraphPassAttachment| a.image_view->0),
            clear_values@ == pass.attachments@.take(j as int).map_values(|a: RenderGraphPassAttachment| spec_clear_value(a)),
            forall|k: int| 0 <= k < j ==> (#[trigger] pass.attachments@[k]).image_view is Some,
    {
        let a = &pass.attachments[j];
        let view = match a.image_view {
            Some(v) => v,
            None => {
                return None;
            },
        };
        descriptions.push(a.create_attachment_description());
        attachment_images.push(view);
        clear_values.push(match a.clear_color {
            Some(c) => c,
            None => AttachmentClearValue::Color(ClearColorValue { r_bits: 0, g_bits: 0, b_bits: 0, a_bits: 0 }),
        });
        proof {
            assert(pass.attachments@.take(j + 1) =~= pass.attachments@.take(j as int).push(pass.attachments@[j as int]));
        }
    }
    proof {
        assert(pass.attachments@.take(na as int) =~= pass.attachments@);
    }
    let mut deps: Vec<SubpassDependency> = Vec::new();
    let nd = dependencies.len();
    for d in 0..nd
        invariant
            nd == dependencies@.len(),
            deps@ == dependencies@.take(d as int),
    {
        deps.push(dependencies[d]);
        proof {
            assert(dependencies@.take(d + 1) =~= dependencies@.take(d as int).push(dependencies@[d as int]));
        }
    }
    proof {
        assert(dependencies@.take(nd as int) =~= dependencies@);
    }
    let node = subpass.node;
    let mut subpasses: Vec<SubpassDescription> = Vec::new();
    subpasses.push(SubpassDescription { color_attachments, resolve_attachments, depth_stencil_attachment });
    let mut subpass_nodes: Vec<RenderGraphNodeId> = Vec::new();
    subpass_nodes.push(node);
    let debug_name = graph.nodes[node.0].name;
    let r = RenderGraphOutputPass {
        subpass_nodes,
        description: RenderPassDescription { attachments: descriptions, subpasses, dependencies: deps },
        extents,
        attachment_images,
        clear_values,
        pre_pass_barrier: pass.pre_pass_barrier,
        debug_name,
    };
    proof {
        assert(r.subpass_nodes@ =~= seq![node]);
    }
    Some(r)
}

/// Turns every planned pass into a renderpass: attachment descriptions, a subpass whose slots
/// refer to the attachments in the layouts the node's barriers ask for, the dependencies
/// worked out for the pass, the views bound to the attachments and their clear values.
pub fn create_output_passes(
    graph: &RenderGraphBuilder,
    passes: Vec<RenderGraphPass>,
    node_barriers: &Vec<Option<RenderGraphNodeImageBarriers>>,
    subpass_dependencies: &Vec<Vec<SubpassDependency>>,
) -> (r: Result<Vec<RenderGraphOutputPass>, RenderGraphPlanError>)
    requires
        subpass_dependencies@.len() == passes@.len(),
        forall|k: int| 0 <= k < passes@.len() ==> {
            let p = #[trigger] passes@[k];
            &&& p.subpasses@.len() == 1
            &&& pass_node(p).0 < graph.nodes@.len()
            &&& pass_node(p).0 < node_barriers@.len()
            &&& node_barriers@[pass_node(p).0 as int] is Some
        },
    ensures
        r is Ok <==> forall|k: int| 0 <= k < passes@.len() ==> pass_convertible(#[trigger] passes@[k], barriers_of(node_barriers@, pass_node(passes@[k]))),
        r is Ok ==> r->Ok_0@.len() == passes@.len() && forall|k: int| 0 <= k < passes@.len() ==> output_pass_matches(
            #[trigger] r->Ok_0@[k],
            *graph,
            passes@[k],
            barriers_of(node_barriers@, pass_node(passes@[k])),
            subpass_dependencies@[k]@,
        ),
{
    let ghost ps = passes@;
    let mut remaining = passes;
    let mut renderpasses: Vec<RenderGraphOutputPass> = Vec::new();
    let n = remaining.len();
    for k in 0..n
        invariant
            n == remaining@.len(),
            ps.len() == n,
            ps == passes@,
            subpass_dependencies@.len() == n,
            forall|j: int| k <= j < n ==> #[trigger] remaining@[j] == ps[j],
            forall|j: int| 0 <= j < ps.len() ==> {
                let p = #[trigger] ps[j];
                &&& p.subpasses@.len() == 1
                &&& pass_node(p).0 < graph.nodes@.len()
                &&& pass_node(p).0 < node_barriers@.len()
                &&& node_barriers@[pass_node(p).0 as int] is Some
            },
            renderpasses@.len() == k,
            forall|j: int| 0 <= j < k ==> pass_convertible(#[trigger] ps[j], barriers_of(node_barriers@, pass_node(ps[j]))),
            forall|j: int| 0 <= j < k ==> output_pass_matches(
                #[trigger] renderpasses@[j],
                *graph,
                ps[j],
                barriers_of(node_barriers@, pass_node(ps[j])),
                subpass_dependencies@[j]@,
            ),
    {
        let mut pass = RenderGraphPass { attachments: Vec::new(), subpasses: Vec::new(), extents: None, pre_pass_barrier: None };
        remaining.set_and_swap(k, &mut pass);
        proof {
            assert(pass == ps[k as int]);
        }
        let node = pass.subpasses[0].node;
        let out = match &node_barriers[node.0] {
            Some(b) => create_output_pass(graph, pass, &b.barriers, &subpass_dependencies[k]),
            None => {
                proof {
                    assert(false);
                }
                return Err(RenderGraphPlanError::UnconvertiblePass(node));
            },
        };
        match out {
            Some(o) => {
                renderpasses.push(o);
            },
            None => {
                proof {
                    assert(!pass_convertible(ps[k as int], barriers_of(node_barriers@, pass_node(ps[k as int]))));
                }
                return Err(RenderGraphPlanError::UnconvertiblePass(node));
            },
        }
    }
    Ok(renderpasses)
}

} // verus!
