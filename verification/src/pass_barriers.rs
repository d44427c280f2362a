use vstd::prelude::*;
use crate::image_spec::RenderGraphImageSpecification;
use crate::graph::{PhysicalImageId, ImageSubresourceRange, RenderGraphBuilder, RenderGraphNodeId};
use crate::passes::{RenderGraphPassAttachment, PrepassImageBarrier, PrepassBarrier, RenderGraphPass, IMAGE_LAYOUT_UNDEFINED};
use crate::node_barriers::{NodeImageBarrier, RenderGraphNodeImageBarriers, STAGE_TOP_OF_PIPE, images_distinct};
use crate::plan_error::RenderGraphPlanError;
use crate::constraints::DetermineImageConstraintsResult;
use crate::physical_images::AssignPhysicalImagesResult;

verus! {

/// The number of pipeline stage bits tracked per image.
pub const MAX_PIPELINE_FLAG_BITS: usize = 15;

/// The pipeline stage with bit `i`.
pub open spec fn stage_bit(i: int) -> u32 {
    1u32 << (i as u32)
}

/// What is known of an image while the passes are simulated in order: its layout, the writes
/// not yet made visible, and for each pipeline stage the accesses already made visible.
pub struct ImageState {
    pub layout: i32,
    pub pending_flush_access_flags: u32,
    pub pending_flush_pipeline_stage_flags: u32,
    pub invalidated: Vec<u32>,
}

pub struct ImageStateModel {
    pub layout: i32,
    pub pending_flush_access_flags: u32,
    pub pending_flush_pipeline_stage_flags: u32,
    pub invalidated: Seq<u32>,
}

impl View for ImageState {
    type V = ImageStateModel;

    open spec fn view(&self) -> ImageStateModel {
        ImageStateModel {
            layout: self.layout,
            pending_flush_access_flags: self.pending_flush_access_flags,
            pending_flush_pipeline_stage_flags: self.pending_flush_pipeline_stage_flags,
            invalidated: self.invalidated@,
        }
    }
}

/// `start` with the stage bit of every stage in which the image was made visible to something.
pub open spec fn stages_in_use(start: u32, inv: Seq<u32>, n: nat) -> u32
    decreases n,
{
    if n == 0 {
        start
    } else {
        let prev = stages_in_use(start, inv, (n - 1) as nat);
        if inv[n - 1] != 0 {
            prev | stage_bit(n - 1)
        } else {
            prev
        }
    }
}

/// Drops from `stages` each stage in which `access` was already made visible.
pub open spec fn skip_invalidated(stages: u32, access: u32, inv: Seq<u32>, n: nat) -> u32
    decreases n,
{
    if n == 0 {
        stages
    } else {
        let prev = skip_invalidated(stages, access, inv, (n - 1) as nat);
        if (stage_bit(n - 1) & prev) != 0 && (inv[n - 1] & access) == access {
            prev & !stage_bit(n - 1)
        } else {
            prev
        }
    }
}

/// The accesses made visible per stage after a barrier that makes `access` visible to
/// `stages`, for the first `n` stages (the rest unchanged).
pub open spec fn mark_invalidated(inv: Seq<u32>, stages: u32, access: u32, n: nat) -> Seq<u32> {
    Seq::new(inv.len(), |i: int| if i < n && (stage_bit(i) & stages) != 0 { inv[i] | access } else { inv[i] })
}

pub open spec fn all_cleared(n: nat) -> Seq<u32> {
    Seq::new(n, |i: int| 0u32)
}

fn exec_stage_bit(i: usize) -> (r: u32)
    requires
        i < MAX_PIPELINE_FLAG_BITS,
    ensures
        r == stage_bit(i as int),
{
    1u32 << (i as u32)
}

fn exec_stages_in_use(start: u32, inv: &Vec<u32>) -> (r: u32)
    requires
        inv@.len() == MAX_PIPELINE_FLAG_BITS,
    ensures
        r == stages_in_use(start, inv@, MAX_PIPELINE_FLAG_BITS as nat),
{
    let mut acc = start;
    for i in 0..MAX_PIPELINE_FLAG_BITS
        invariant
            inv@.len() == MAX_PIPELINE_FLAG_BITS,
            acc == stages_in_use(start, inv@, i as nat),
    {
        if inv[i] != 0 {
            acc = acc | exec_stage_bit(i);
        }
    }
    acc
}

fn exec_skip_invalidated(stages: u32, access: u32, inv: &Vec<u32>) -> (r: u32)
    requires
        inv@.len() == MAX_PIPELINE_FLAG_BITS,
    ensures
        r == skip_invalidated(stages, access, inv@, MAX_PIPELINE_FLAG_BITS as nat),
{
    let mut acc = stages;
    for i in 0..MAX_PIPELINE_FLAG_BITS
        invariant
            inv@.len() == MAX_PIPELINE_FLAG_BITS,
            acc == skip_invalidated(stages, access, inv@, i as nat),
    {
        let bit = exec_stage_bit(i);
        if (bit & acc) != 0 && (inv[i] & access) == access {
            acc = acc & !bit;
        }
    }
    acc
}

fn exec_mark_invalidated(inv: &mut Vec<u32>, stages: u32, access: u32)
    requires
        old(inv)@.len() == MAX_PIPELINE_FLAG_BITS,
    ensures
        final(inv)@ == mark_invalidated(old(inv)@, stages, access, MAX_PIPELINE_FLAG_BITS as nat),
{
    let ghost inv0 = inv@;
    for i in 0..MAX_PIPELINE_FLAG_BITS
        invariant
            inv@.len() == MAX_PIPELINE_FLAG_BITS,
            inv0.len() == MAX_PIPELINE_FLAG_BITS,
            inv@ == mark_invalidated(inv0, stages, access, i as nat),
    {
        let bit = exec_stage_bit(i);
        if (bit & stages) != 0 {
            let v = inv[i] | access;
            inv.set(i, v);
        }
        proof {
            assert(inv@ =~= mark_invalidated(inv0, stages, access, (i + 1) as nat));
        }
    }
}

fn cleared() -> (r: Vec<u32>)
    ensures
        r@ == all_cleared(MAX_PIPELINE_FLAG_BITS as nat),
{
    let mut v: Vec<u32> = Vec::new();
    for i in 0..MAX_PIPELINE_FLAG_BITS
        invariant
            v@ =~= all_cleared(i as nat),
    {
        v.push(0);
    }
    v
}


/// The accumulated state while the barriers of one pass are worked out.
pub struct PassSim {
    pub src_access: u32,
    pub src_stage: u32,
    pub dst_access: u32,
    pub dst_stage: u32,
    pub states: Seq<ImageStateModel>,
    pub attachments: Seq<RenderGraphPassAttachment>,
    pub initial: Seq<Option<i32>>,
    pub transitions: Seq<PrepassImageBarrier>,
}

/// Index of the first attachment bound to physical image `p` among the first `n`, or -1.
pub open spec fn find_attachment(atts: Seq<RenderGraphPassAttachment>, p: PhysicalImageId, n: nat) -> int
    decreases n,
{
    if n == 0 {
        -1
    } else {
        let prev = find_attachment(atts, p, (n - 1) as nat);
        if prev >= 0 {
            prev
        } else if atts[n - 1].image == Some(p) {
            n - 1
        } else {
            -1
        }
    }
}

/// All mips and layers of an image with the given specification.
pub open spec fn full_range(spec: RenderGraphImageSpecification) -> ImageSubresourceRange {
    ImageSubresourceRange {
        aspect_mask: spec.aspect_flags,
        base_mip_level: 0,
        level_count: spec.mip_count,
        base_array_layer: 0,
        layer_count: spec.layer_count,
    }
}

/// Whether the layout transitions of a pass can be left to the pass's external dependency:
/// no sampled image needs a transition, and every image has one layer and one mip.
pub open spec fn can_use_external_dependency(
    states: Seq<ImageStateModel>,
    specs: Seq<RenderGraphImageSpecification>,
    barriers: Seq<NodeImageBarrier>,
) -> bool {
    forall|i: int| 0 <= i < barriers.len() ==> {
        let e = #[trigger] barriers[i];
        &&& !(e.barrier.used_by_sampling && states[e.image.0 as int].layout != e.barrier.layout)
        &&& specs[e.image.0 as int].layer_count == 1
        &&& specs[e.image.0 as int].mip_count == 1
    }
}

/// One image barrier of the node: gathers the writes to wait for, the stages still reading an
/// image whose layout changes, the accesses to make visible (skipping those already visible),
/// the initial and final layouts of the image's attachment, and the layout transition.
pub open spec fn barrier_step(
    sim: PassSim,
    e: NodeImageBarrier,
    use_external: bool,
    specs: Seq<RenderGraphImageSpecification>,
) -> PassSim {
    let p = e.image.0 as int;
    let st = sim.states[p];
    let b = e.barrier;
    let src_access = sim.src_access | st.pending_flush_access_flags;
    let src_stage1 = sim.src_stage | st.pending_flush_pipeline_stage_flags;
    let layout_change = st.layout != b.layout;
    let src_stage = if layout_change {
        stages_in_use(src_stage1, st.invalidated, MAX_PIPELINE_FLAG_BITS as nat)
    } else {
        src_stage1
    };
    let inv = if layout_change {
        all_cleared(MAX_PIPELINE_FLAG_BITS as nat)
    } else {
        st.invalidated
    };
    let access = b.invalidate.access_flags | b.flush.access_flags;
    let stages = skip_invalidated(b.invalidate.stage_flags | b.flush.stage_flags, access, inv, MAX_PIPELINE_FLAG_BITS as nat);
    let access2: u32 = if stages == 0 {
        0
    } else {
        access
    };
    let ai = find_attachment(sim.attachments, e.image, sim.attachments.len());
    let attachments = if ai >= 0 {
        let a = sim.attachments[ai];
        let a1 = if sim.initial[ai] is None {
            RenderGraphPassAttachment {
                initial_layout: if use_external {
                    st.layout
                } else {
                    b.layout
                },
                ..a
            }
        } else {
            a
        };
        sim.attachments.update(ai, RenderGraphPassAttachment { final_layout: b.layout, ..a1 })
    } else {
        sim.attachments
    };
    let initial = if ai >= 0 && sim.initial[ai] is None {
        sim.initial.update(ai, Some(st.layout))
    } else {
        sim.initial
    };
    let transitions = if layout_change && !use_external {
        sim.transitions.push(PrepassImageBarrier {
            image: e.image,
            old_layout: st.layout,
            new_layout: b.layout,
            src_access: 0,
            dst_access: 0,
            subresource_range: full_range(specs[p]),
        })
    } else {
        sim.transitions
    };
    PassSim {
        src_access,
        src_stage,
        dst_access: sim.dst_access | access2,
        dst_stage: sim.dst_stage | stages,
        states: sim.states.update(p, ImageStateModel { layout: b.layout, invalidated: inv, ..st }),
        attachments,
        initial,
        transitions,
    }
}

pub open spec fn barrier_steps(
    sim: PassSim,
    barriers: Seq<NodeImageBarrier>,
    use_external: bool,
    specs: Seq<RenderGraphImageSpecification>,
    n: nat,
) -> PassSim
    decreases n,
{
    if n == 0 {
        sim
    } else {
        barrier_step(barrier_steps(sim, barriers, use_external, specs, (n - 1) as nat), barriers[n - 1], use_external, specs)
    }
}

/// After the barrier: the writes waited for are no longer pending, and the accesses made
/// visible are recorded for the stages they were made visible to.
pub open spec fn settle_state(st: ImageStateModel, src_access: u32, src_stage: u32, dst_access: u32, dst_stage: u32) -> ImageStateModel {
    ImageStateModel {
        layout: st.layout,
        pending_flush_access_flags: st.pending_flush_access_flags & !src_access,
        pending_flush_pipeline_stage_flags: st.pending_flush_pipeline_stage_flags & !src_stage,
        invalidated: mark_invalidated(st.invalidated, dst_stage, dst_access, MAX_PIPELINE_FLAG_BITS as nat),
    }
}

/// What the pass writes becomes pending, and nothing of the image is visible anymore.
pub open spec fn flush_step(states: Seq<ImageStateModel>, e: NodeImageBarrier) -> Seq<ImageStateModel> {
    let p = e.image.0 as int;
    let st = states[p];
    states.update(p, ImageStateModel {
        layout: st.layout,
        pending_flush_access_flags: st.pending_flush_access_flags | e.barrier.flush.access_flags,
        pending_flush_pipeline_stage_flags: st.pending_flush_pipeline_stage_flags | e.barrier.flush.stage_flags,
        invalidated: all_cleared(MAX_PIPELINE_FLAG_BITS as nat),
    })
}

pub open spec fn flush_steps(states: Seq<ImageStateModel>, barriers: Seq<NodeImageBarrier>, n: nat) -> Seq<ImageStateModel>
    decreases n,
{
    if n == 0 {
        states
    } else {
        flush_step(flush_steps(states, barriers, (n - 1) as nat), barriers[n - 1])
    }
}

/// An image state is well formed: one entry of visible accesses per tracked stage.
pub open spec fn state_wf(st: ImageStateModel) -> bool {
    st.invalidated.len() == MAX_PIPELINE_FLAG_BITS
}

pub open spec fn states_wf(states: Seq<ImageStateModel>) -> bool {
    forall|i: int| 0 <= i < states.len() ==> state_wf(#[trigger] states[i])
}

/// The barriers refer to physical images that exist.
pub open spec fn barriers_in_range(barriers: Seq<NodeImageBarrier>, n: nat) -> bool {
    forall|i: int| 0 <= i < barriers.len() ==> (#[trigger] barriers[i]).image.0 < n
}

pub open spec fn states_view(states: Seq<ImageState>) -> Seq<ImageStateModel> {
    states.map_values(|st: ImageState| st@)
}

pub open spec fn all_attachments_placed(atts: Seq<RenderGraphPassAttachment>) -> bool {
    forall|j: int| 0 <= j < atts.len() ==> (#[trigger] atts[j]).image is Some
}

fn exec_find_attachment(atts: &Vec<RenderGraphPassAttachment>, p: PhysicalImageId) -> (r: Option<usize>)
    ensures
        r is None ==> find_attachment(atts@, p, atts@.len()) == -1,
        r is Some ==> r->0 < atts@.len() && find_attachment(atts@, p, atts@.len()) == r->0,
{
    let n = atts.len();
    for k in 0..n
        invariant
            n == atts@.len(),
            find_attachment(atts@, p, k as nat) == -1,
    {
        if atts[k].image == Some(p) {
            proof {
                lemma_find_attachment_stays(atts@, p, (k + 1) as nat, n as nat);
            }
            return Some(k);
        }
    }
    None
}

proof fn lemma_find_attachment_stays(atts: Seq<RenderGraphPassAttachment>, p: PhysicalImageId, i: nat, n: nat)
    requires
        i <= n,
        find_attachment(atts, p, i) >= 0,
    ensures
        find_attachment(atts, p, n) == find_attachment(atts, p, i),
    decreases n - i,
{
    if i < n {
        lemma_find_attachment_stays(atts, p, i, (n - 1) as nat);
    }
}

fn take_state(states: &mut Vec<ImageState>, p: usize) -> (st: ImageState)
    requires
        p < old(states)@.len(),
    ensures
        st@ == states_view(old(states)@)[p as int],
        final(states)@.len() == old(states)@.len(),
        forall|i: int| 0 <= i < old(states)@.len() && i != p ==> #[trigger] final(states)@[i] == old(states)@[i],
{
    let mut st = ImageState { layout: 0, pending_flush_access_flags: 0, pending_flush_pipeline_stage_flags: 0, invalidated: Vec::new() };
    states.set_and_swap(p, &mut st);
    st
}

/// One image barrier of the node; see `barrier_step`.
#[verifier::rlimit(40)]
fn exec_barrier_step(
    src_access: &mut u32,
    src_stage: &mut u32,
    dst_access: &mut u32,
    dst_stage: &mut u32,
    states: &mut Vec<ImageState>,
    attachments: &mut Vec<RenderGraphPassAttachment>,
    initial: &mut Vec<Option<i32>>,
    transitions: &mut Vec<PrepassImageBarrier>,
    e: NodeImageBarrier,
    use_external: bool,
    specs: &Vec<RenderGraphImageSpecification>,
)
    requires
        e.image.0 < old(states)@.len(),
        old(states)@.len() == specs@.len(),
        states_wf(states_view(old(states)@)),
        old(initial)@.len() == old(attachments)@.len(),
    ensures
        final(states)@.len() == old(states)@.len(),
        states_wf(states_view(final(states)@)),
        final(initial)@.len() == final(attachments)@.len(),
        (PassSim {
            src_access: *final(src_access),
            src_stage: *final(src_stage),
            dst_access: *final(dst_access),
            dst_stage: *final(dst_stage),
            states: states_view(final(states)@),
            attachments: final(attachments)@,
            initial: final(initial)@,
            transitions: final(transitions)@,
        }) == barrier_step(
            PassSim {
                src_access: *old(src_access),
                src_stage: *old(src_stage),
                dst_access: *old(dst_access),
                dst_stage: *old(dst_stage),
                states: states_view(old(states)@),
                attachments: old(attachments)@,
                initial: old(initial)@,
                transitions: old(transitions)@,
            },
            e,
            use_external,
            specs@,
        ),
{
    let ghost states0 = states_view(states@);
    let ghost vec0 = states@;
    let p = e.image.0;
    let b = e.barrier;
    let mut st = take_state(states, p);
    proof {
        assert(state_wf(states0[p as int]));
    }
    let old_layout = st.layout;
    *src_access = *src_access | st.pending_flush_access_flags;
    *src_stage = *src_stage | st.pending_flush_pipeline_stage_flags;
    let layout_change = st.layout != b.layout;
    if layout_change {
        *src_stage = exec_stages_in_use(*src_stage, &st.invalidated);
        st.invalidated = cleared();
    }
    let access = b.invalidate.access_flags | b.flush.access_flags;
    let stages = exec_skip_invalidated(b.invalidate.stage_flags | b.flush.stage_flags, access, &st.invalidated);
    let access2: u32 = if stages == 0 { 0 } else { access };
    *dst_access = *dst_access | access2;
    *dst_stage = *dst_stage | stages;
    match exec_find_attachment(attachments, e.image) {
        Some(ai) => {
            let mut a = attachments[ai];
            if initial[ai].is_none() {
                initial.set(ai, Some(old_layout));
                a.initial_layout = if use_external { old_layout } else { b.layout };
            }
            a.final_layout = b.layout;
            attachments.set(ai, a);
        },
        None => {},
    }
    if layout_change && !use_external {
        let spec = &specs[p];
        transitions.push(PrepassImageBarrier {
            image: e.image,
            old_layout,
            new_layout: b.layout,
            src_access: 0,
            dst_access: 0,
            subresource_range: ImageSubresourceRange {
                aspect_mask: spec.aspect_flags,
                base_mip_level: 0,
                level_count: spec.mip_count,
                base_array_layer: 0,
                layer_count: spec.layer_count,
            },
        });
    }
    st.layout = b.layout;
    states.set(p, st);
    proof {
        let sv = states_view(states@);
        assert(sv =~= states0.update(p as int, ImageStateModel {
            layout: b.layout,
            invalidated: if layout_change { all_cleared(MAX_PIPELINE_FLAG_BITS as nat) } else { states0[p as int].invalidated },
            ..states0[p as int]
        })) by {
            assert forall|i: int| 0 <= i < sv.len() implies sv[i] == states0.update(p as int, ImageStateModel {
                layout: b.layout,
                invalidated: if layout_change { all_cleared(MAX_PIPELINE_FLAG_BITS as nat) } else { states0[p as int].invalidated },
                ..states0[p as int]
            })[i] by {
                if i != p {
                    assert(states@[i] == vec0[i]);
                }
            }
        }
        assert forall|i: int| 0 <= i < sv.len() implies state_wf(#[trigger] sv[i]) by {
            if i != p {
                assert(sv[i] == states0[i]);
            }
        }
    }
}

#[derive(Clone, Copy, Debug, PartialEq, Eq, Hash, Structural)]
pub enum SubpassDependencyIndex {
    External,
    Index(u32),
}

/// A dependency between subpasses (`VkSubpassDependency`).
#[derive(Clone, Copy, Debug, PartialEq, Eq, Hash, Structural)]
pub struct SubpassDependency {
    pub src_subpass: SubpassDependencyIndex,
    pub dst_subpass: SubpassDependencyIndex,
    pub src_stage_mask: u32,
    pub dst_stage_mask: u32,
    pub src_access_mask: u32,
    pub dst_access_mask: u32,
    pub dependency_flags: u32,
}

/// Output images written by `node` end in the layout the caller asked for.
pub open spec fn output_final_layouts(
    atts: Seq<RenderGraphPassAttachment>,
    g: RenderGraphBuilder,
    u2p: Seq<Option<PhysicalImageId>>,
    node: RenderGraphNodeId,
    n: nat,
) -> Seq<RenderGraphPassAttachment>
    decreases n,
{
    if n == 0 {
        atts
    } else {
        let prev = output_final_layouts(atts, g, u2p, node, (n - 1) as nat);
        let o = g.output_images@[n - 1];
        if g.spec_creator(o.usage) == node {
            let op = u2p[o.usage.0 as int]->0;
            Seq::new(prev.len(), |j: int| if prev[j].image == Some(op) {
                RenderGraphPassAttachment { final_layout: o.final_layout, ..prev[j] }
            } else {
                prev[j]
            })
        } else {
            prev
        }
    }
}

/// What working out the barriers of one pass produces.
pub struct PassBarrierOutcome {
    pub states: Seq<ImageStateModel>,
    pub attachments: Seq<RenderGraphPassAttachment>,
    pub dependencies: Seq<SubpassDependency>,
    pub uses_external_dependency: bool,
    pub src_stage: u32,
    pub dst_stage: u32,
    pub image_barriers: Seq<PrepassImageBarrier>,
}

pub open spec fn pass_outcome(
    states0: Seq<ImageStateModel>,
    attachments0: Seq<RenderGraphPassAttachment>,
    node: RenderGraphNodeId,
    barriers: Seq<NodeImageBarrier>,
    specs: Seq<RenderGraphImageSpecification>,
    g: RenderGraphBuilder,
    u2p: Seq<Option<PhysicalImageId>>,
) -> PassBarrierOutcome {
    let use_external = can_use_external_dependency(states0, specs, barriers);
    let sim0 = PassSim {
        src_access: 0,
        src_stage: 0,
        dst_access: 0,
        dst_stage: 0,
        states: states0,
        attachments: attachments0,
        initial: Seq::new(attachments0.len(), |j: int| None::<i32>),
        transitions: Seq::empty(),
    };
    let sim = barrier_steps(sim0, barriers, use_external, specs, barriers.len());
    let settled = Seq::new(sim.states.len(), |i: int| settle_state(sim.states[i], sim.src_access, sim.src_stage, sim.dst_access, sim.dst_stage));
    let src_stage = if sim.src_stage == 0 {
        STAGE_TOP_OF_PIPE
    } else {
        sim.src_stage
    };
    PassBarrierOutcome {
        states: flush_steps(settled, barriers, barriers.len()),
        attachments: output_final_layouts(sim.attachments, g, u2p, node, g.output_images@.len()),
        dependencies: if use_external {
            seq![SubpassDependency {
                src_subpass: SubpassDependencyIndex::External,
                dst_subpass: SubpassDependencyIndex::Index(0),
                src_stage_mask: src_stage,
                dst_stage_mask: sim.dst_stage,
                src_access_mask: sim.src_access,
                dst_access_mask: sim.dst_access,
                dependency_flags: 0,
            }]
        } else {
            Seq::empty()
        },
        uses_external_dependency: use_external,
        src_stage,
        dst_stage: sim.dst_stage,
        image_barriers: sim.transitions.map_values(|t: PrepassImageBarrier| PrepassImageBarrier { src_access: sim.src_access, dst_access: sim.dst_access, ..t }),
    }
}

fn exec_can_use_external_dependency(
    states: &Vec<ImageState>,
    specs: &Vec<RenderGraphImageSpecification>,
    barriers: &Vec<NodeImageBarrier>,
) -> (r: bool)
    requires
        barriers_in_range(barriers@, states@.len()),
        states@.len() == specs@.len(),
    ensures
        r == can_use_external_dependency(states_view(states@), specs@, barriers@),
{
    let n = barriers.len();
    for i in 0..n
        invariant
            n == barriers@.len(),
            barriers_in_range(barriers@, states@.len()),
            states@.len() == specs@.len(),
            forall|j: int| 0 <= j < i ==> {
                let e = #[trigger] barriers@[j];
                &&& !(e.barrier.used_by_sampling && states_view(states@)[e.image.0 as int].layout != e.barrier.layout)
                &&& specs@[e.image.0 as int].layer_count == 1
                &&& specs@[e.image.0 as int].mip_count == 1
            },
    {
        let e = barriers[i];
        let p = e.image.0;
        if e.barrier.used_by_sampling && states[p].layout != e.barrier.layout {
            return false;
        }
        if specs[p].layer_count != 1 || specs[p].mip_count != 1 {
            return false;
        }
    }
    true
}

fn exec_settle_states(states: &mut Vec<ImageState>, src_access: u32, src_stage: u32, dst_access: u32, dst_stage: u32)
    requires
        states_wf(states_view(old(states)@)),
    ensures
        states_view(final(states)@) == Seq::new(old(states)@.len(), |i: int| settle_state(states_view(old(states)@)[i], src_access, src_stage, dst_access, dst_stage)),
        states_wf(states_view(final(states)@)),
        final(states)@.len() == old(states)@.len(),
{
    let ghost s0 = states_view(states@);
    let n = states.len();
    for i in 0..n
        invariant
            n == states@.len(),
            s0.len() == n,
            states_wf(s0),
            forall|j: int| i <= j < n ==> #[trigger] states_view(states@)[j] == s0[j],
            forall|j: int| 0 <= j < i ==> #[trigger] states_view(states@)[j] == settle_state(s0[j], src_access, src_stage, dst_access, dst_stage),
            forall|j: int| 0 <= j < i ==> state_wf(#[trigger] states_view(states@)[j]),
    {
        let ghost before = states@;
        let mut st = take_state(states, i);
        proof {
            assert(state_wf(s0[i as int]));
        }
        st.pending_flush_access_flags = st.pending_flush_access_flags & !src_access;
        st.pending_flush_pipeline_stage_flags = st.pending_flush_pipeline_stage_flags & !src_stage;
        exec_mark_invalidated(&mut st.invalidated, dst_stage, dst_access);
        states.set(i, st);
        proof {
            assert forall|j: int| i + 1 <= j < n implies #[trigger] states_view(states@)[j] == s0[j] by {
                assert(states@[j] == before[j]);
                assert(states_view(before)[j] == s0[j]);
            }
            assert forall|j: int| 0 <= j < i + 1 implies #[trigger] states_view(states@)[j] == settle_state(s0[j], src_access, src_stage, dst_access, dst_stage) by {
                if j < i {
                    assert(states@[j] == before[j]);
                    assert(states_view(before)[j] == settle_state(s0[j], src_access, src_stage, dst_access, dst_stage));
                }
            }
            assert forall|j: int| 0 <= j < i + 1 implies state_wf(#[trigger] states_view(states@)[j]) by {
                if j < i {
                    assert(states@[j] == before[j]);
                    assert(state_wf(states_view(before)[j]));
                }
            }
        }
    }
    proof {
        assert(states_view(states@) =~= Seq::new(n as nat, |i: int| settle_state(s0[i], src_access, src_stage, dst_access, dst_stage)));
    }
}

fn exec_flush_steps(states: &mut Vec<ImageState>, barriers: &Vec<NodeImageBarrier>)
    requires
        states_wf(states_view(old(states)@)),
        barriers_in_range(barriers@, old(states)@.len()),
    ensures
        states_view(final(states)@) == flush_steps(states_view(old(states)@), barriers@, barriers@.len()),
        states_wf(states_view(final(states)@)),
        final(states)@.len() == old(states)@.len(),
{
    let ghost s0 = states_view(states@);
    let n = barriers.len();
    for k in 0..n
        invariant
            n == barriers@.len(),
            barriers_in_range(barriers@, states@.len()),
            states@.len() == s0.len(),
            states_view(states@) == flush_steps(s0, barriers@, k as nat),
            states_wf(states_view(states@)),
    {
        let e = barriers[k];
        let p = e.image.0;
        let ghost before = states@;
        let ghost bv = states_view(before);
        let mut st = take_state(states, p);
        st.pending_flush_pipeline_stage_flags = st.pending_flush_pipeline_stage_flags | e.barrier.flush.stage_flags;
        st.pending_flush_access_flags = st.pending_flush_access_flags | e.barrier.flush.access_flags;
        st.invalidated = cleared();
        states.set(p, st);
        proof {
            let sv = states_view(states@);
            assert(sv =~= flush_step(bv, e)) by {
                assert forall|i: int| 0 <= i < sv.len() implies sv[i] == flush_step(bv, e)[i] by {
                    if i != p {
                        assert(states@[i] == before[i]);
                    }
                }
            }
            assert forall|i: int| 0 <= i < sv.len() implies state_wf(#[trigger] sv[i]) by {
                if i != p {
                    assert(sv[i] == bv[i]);
                }
            }
        }
    }
}

/// A layout transition of the pre-pass barrier moves an image into the undefined layout.
pub open spec fn transitions_to_undefined(o: PassBarrierOutcome) -> bool {
    &&& !o.uses_external_dependency
    &&& exists|i: int| 0 <= i < o.image_barriers.len() && (#[trigger] o.image_barriers[i]).new_layout == IMAGE_LAYOUT_UNDEFINED
}

fn none_initial(n: usize) -> (r: Vec<Option<i32>>)
    ensures
        r@ == Seq::new(n as nat, |j: int| None::<i32>),
{
    let mut v: Vec<Option<i32>> = Vec::new();
    for i in 0..n
        invariant
            v@ =~= Seq::new(i as nat, |j: int| None::<i32>),
    {
        v.push(None);
    }
    v
}

/// Sets the final layout of each output image that `node` writes, as the caller asked.
fn apply_output_final_layouts(
    graph: &RenderGraphBuilder,
    attachments: &mut Vec<RenderGraphPassAttachment>,
    node: RenderGraphNodeId,
    u2p: &Vec<Option<PhysicalImageId>>,
)
    requires
        graph.wf(),
        forall|i: int| 0 <= i < graph.output_images@.len() ==> (#[trigger] graph.output_images@[i]).usage.0 < u2p@.len()
            && u2p@[graph.output_images@[i].usage.0 as int] is Some,
    ensures
        final(attachments)@ == output_final_layouts(old(attachments)@, *graph, u2p@, node, graph.output_images@.len()),
{
    let ghost a0 = attachments@;
    let n = graph.output_images.len();
    for oi in 0..n
        invariant
            n == graph.output_images@.len(),
            graph.wf(),
            forall|i: int| 0 <= i < graph.output_images@.len() ==> (#[trigger] graph.output_images@[i]).usage.0 < u2p@.len()
                && u2p@[graph.output_images@[i].usage.0 as int] is Some,
            attachments@ == output_final_layouts(a0, *graph, u2p@, node, oi as nat),
    {
        let o = &graph.output_images[oi];
        if graph.image_version_info(o.usage).creator_node == node {
            let op = u2p[o.usage.0].unwrap();
            let ghost prev = attachments@;
            let na = attachments.len();
            for j in 0..na
                invariant
                    na == attachments@.len(),
                    prev.len() == na,
                    forall|k: int| j <= k < na ==> #[trigger] attachments@[k] == prev[k],
                    forall|k: int| 0 <= k < j ==> #[trigger] attachments@[k] == (if prev[k].image == Some(op) {
                        RenderGraphPassAttachment { final_layout: o.final_layout, ..prev[k] }
                    } else {
                        prev[k]
                    }),
            {
                let mut a = attachments[j];
                if a.image == Some(op) {
                    a.final_layout = o.final_layout;
                    attachments.set(j, a);
                }
            }
            proof {
                assert(attachments@ =~= output_final_layouts(a0, *graph, u2p@, node, (oi + 1) as nat));
            }
        } else {
            proof {
                assert(attachments@ =~= output_final_layouts(a0, *graph, u2p@, node, (oi + 1) as nat));
            }
        }
    }
}

/// Works out the barriers of one pass that runs `node`: updates the image states and the
/// pass's attachment layouts, and returns the pass's subpass dependencies and, where the
/// layout transitions cannot be left to the pass, the barrier to run before it.
#[verifier::rlimit(40)]
fn build_barriers_for_pass(
    graph: &RenderGraphBuilder,
    states: &mut Vec<ImageState>,
    attachments: &mut Vec<RenderGraphPassAttachment>,
    node: RenderGraphNodeId,
    barriers: &Vec<NodeImageBarrier>,
    specs: &Vec<RenderGraphImageSpecification>,
    u2p: &Vec<Option<PhysicalImageId>>,
) -> (r: Result<(Vec<SubpassDependency>, Option<PrepassBarrier>), RenderGraphPlanError>)
    requires
        graph.wf(),
        forall|i: int| 0 <= i < graph.output_images@.len() ==> (#[trigger] graph.output_images@[i]).usage.0 < u2p@.len()
            && u2p@[graph.output_images@[i].usage.0 as int] is Some,
        old(states)@.len() == specs@.len(),
        states_wf(states_view(old(states)@)),
        barriers_in_range(barriers@, old(states)@.len()),
    ensures
        ({
            let o = pass_outcome(states_view(old(states)@), old(attachments)@, node, barriers@, specs@, *graph, u2p@);
            &&& r is Err <==> transitions_to_undefined(o)
            &&& r is Ok ==> {
                let (deps, pre) = r->Ok_0;
                &&& states_view(final(states)@) == o.states
                &&& final(states)@.len() == old(states)@.len()
                &&& states_wf(states_view(final(states)@))
                &&& final(attachments)@ == o.attachments
                &&& deps@ == o.dependencies
                &&& (o.uses_external_dependency ==> pre is None)
                &&& (!o.uses_external_dependency ==> pre is Some
                    && pre->0.src_stage == o.src_stage
                    && pre->0.dst_stage == o.dst_stage
                    && pre->0.image_barriers@ == o.image_barriers)
            }
        }),
{
    let ghost s0 = states_view(states@);
    let ghost a0 = attachments@;
    let use_external = exec_can_use_external_dependency(states, specs, barriers);
    let mut initial = none_initial(attachments.len());
    let mut src_access: u32 = 0;
    let mut src_stage: u32 = 0;
    let mut dst_access: u32 = 0;
    let mut dst_stage: u32 = 0;
    let mut transitions: Vec<PrepassImageBarrier> = Vec::new();
    let ghost sim0 = PassSim {
        src_access: 0,
        src_stage: 0,
        dst_access: 0,
        dst_stage: 0,
        states: s0,
        attachments: a0,
        initial: Seq::new(a0.len(), |j: int| None::<i32>),
        transitions: Seq::empty(),
    };
    let n = barriers.len();
    for k in 0..n
        invariant
            n == barriers@.len(),
            states@.len() == specs@.len(),
            states_wf(states_view(states@)),
            barriers_in_range(barriers@, states@.len()),
            initial@.len() == attachments@.len(),
            (PassSim {
                src_access,
                src_stage,
                dst_access,
                dst_stage,
                states: states_view(states@),
                attachments: attachments@,
                initial: initial@,
                transitions: transitions@,
            }) == barrier_steps(sim0, barriers@, use_external, specs@, k as nat),
    {
        exec_barrier_step(
            &mut src_access,
            &mut src_stage,
            &mut dst_access,
            &mut dst_stage,
            states,
            attachments,
            &mut initial,
            &mut transitions,
            barriers[k],
            use_external,
            specs,
        );
    }
    let ghost sim = barrier_steps(sim0, barriers@, use_external, specs@, n as nat);
    let ghost o = pass_outcome(s0, a0, node, barriers@, specs@, *graph, u2p@);
    proof {
        assert(o.image_barriers == sim.transitions.map_values(|t: PrepassImageBarrier| PrepassImageBarrier { src_access: sim.src_access, dst_access: sim.dst_access, ..t }));
        assert(o.uses_external_dependency == use_external);
    }
    exec_settle_states(states, src_access, src_stage, dst_access, dst_stage);
    proof {
        let settled = Seq::new(sim.states.len(), |i: int| settle_state(sim.states[i], sim.src_access, sim.src_stage, sim.dst_access, sim.dst_stage));
        assert(states_view(states@) =~= settled);
    }
    if src_stage == 0 {
        src_stage = STAGE_TOP_OF_PIPE;
    }
    let mut deps: Vec<SubpassDependency> = Vec::new();
    let mut pre: Option<PrepassBarrier> = None;
    if use_external {
        deps.push(SubpassDependency {
            src_subpass: SubpassDependencyIndex::External,
            dst_subpass: SubpassDependencyIndex::Index(0),
            src_stage_mask: src_stage,
            dst_stage_mask: dst_stage,
            src_access_mask: src_access,
            dst_access_mask: dst_access,
            dependency_flags: 0,
        });
    } else {
        let ghost mapped = sim.transitions.map_values(|t: PrepassImageBarrier| PrepassImageBarrier { src_access: sim.src_access, dst_access: sim.dst_access, ..t });
        let mut image_barriers: Vec<PrepassImageBarrier> = Vec::new();
        let nt = transitions.len();
        for t in 0..nt
            invariant
                nt == transitions@.len(),
                transitions@ == sim.transitions,
                src_access == sim.src_access,
                dst_access == sim.dst_access,
                mapped == sim.transitions.map_values(|t: PrepassImageBarrier| PrepassImageBarrier { src_access: sim.src_access, dst_access: sim.dst_access, ..t }),
                image_barriers@ == mapped.take(t as int),
                o.image_barriers == mapped,
                o.uses_external_dependency == use_external,
                o == pass_outcome(states_view(old(states)@), old(attachments)@, node, barriers@, specs@, *graph, u2p@),
                !use_external,
                forall|i: int| 0 <= i < t ==> (#[trigger] mapped[i]).new_layout != IMAGE_LAYOUT_UNDEFINED,
        {
            let tr = transitions[t];
            if tr.new_layout == IMAGE_LAYOUT_UNDEFINED {
                proof {
                    assert(mapped[t as int].new_layout == IMAGE_LAYOUT_UNDEFINED);
                    assert(o.image_barriers[t as int].new_layout == IMAGE_LAYOUT_UNDEFINED);
                    assert(transitions_to_undefined(o));
                }
                return Err(RenderGraphPlanError::TransitionToUndefinedLayout(tr.image));
            }
            image_barriers.push(PrepassImageBarrier { src_access, dst_access, ..tr });
            proof {
                assert(mapped.take(t + 1) =~= mapped.take(t as int).push(mapped[t as int]));
            }
        }
        proof {
            assert(mapped.take(nt as int) =~= mapped);
            assert(!transitions_to_undefined(o));
        }
        pre = Some(PrepassBarrier { src_stage, dst_stage, image_barriers });
    }
    exec_flush_steps(states, barriers);
    apply_output_final_layouts(graph, attachments, node, u2p);
    Ok((deps, pre))
}


/// Every image starts in the undefined layout with nothing pending and nothing visible.
pub open spec fn initial_image_states(n: nat) -> Seq<ImageStateModel> {
    Seq::new(n, |i: int| ImageStateModel {
        layout: IMAGE_LAYOUT_UNDEFINED,
        pending_flush_access_flags: 0,
        pending_flush_pipeline_stage_flags: 0,
        invalidated: all_cleared(MAX_PIPELINE_FLAG_BITS as nat),
    })
}

/// The node that the (single) subpass of a pass runs.
pub open spec fn pass_node(p: RenderGraphPass) -> RenderGraphNodeId {
    p.subpasses@[0].node
}

/// The image barriers of `node`.
pub open spec fn barriers_of(nb: Seq<Option<RenderGraphNodeImageBarriers>>, node: RenderGraphNodeId) -> Seq<NodeImageBarrier> {
    nb[node.0 as int]->0.barriers@
}

/// The image states before pass `k` runs.
pub open spec fn states_before_pass(
    g: RenderGraphBuilder,
    passes: Seq<RenderGraphPass>,
    nb: Seq<Option<RenderGraphNodeImageBarriers>>,
    specs: Seq<RenderGraphImageSpecification>,
    u2p: Seq<Option<PhysicalImageId>>,
    k: nat,
) -> Seq<ImageStateModel>
    decreases k,
{
    if k == 0 {
        initial_image_states(specs.len())
    } else {
        let prev = states_before_pass(g, passes, nb, specs, u2p, (k - 1) as nat);
        let p = passes[k - 1];
        pass_outcome(prev, p.attachments@, pass_node(p), barriers_of(nb, pass_node(p)), specs, g, u2p).states
    }
}

/// What working out the barriers of pass `k` produces.
pub open spec fn outcome_of_pass(
    g: RenderGraphBuilder,
    passes: Seq<RenderGraphPass>,
    nb: Seq<Option<RenderGraphNodeImageBarriers>>,
    specs: Seq<RenderGraphImageSpecification>,
    u2p: Seq<Option<PhysicalImageId>>,
    k: int,
) -> PassBarrierOutcome {
    let p = passes[k];
    pass_outcome(states_before_pass(g, passes, nb, specs, u2p, k as nat), p.attachments@, pass_node(p), barriers_of(nb, pass_node(p)), specs, g, u2p)
}

/// The passes can have their barriers worked out: one subpass each, whose node has barriers
/// on existing physical images, and every attachment has its physical image.
pub open spec fn passes_ready(
    passes: Seq<RenderGraphPass>,
    nb: Seq<Option<RenderGraphNodeImageBarriers>>,
    nimages: nat,
) -> bool {
    forall|k: int| 0 <= k < passes.len() ==> {
        let p = #[trigger] passes[k];
        &&& p.subpasses@.len() == 1
        &&& pass_node(p).0 < nb.len()
        &&& nb[pass_node(p).0 as int] is Some
        &&& barriers_in_range(barriers_of(nb, pass_node(p)), nimages)
        &&& all_attachments_placed(p.attachments@)
    }
}

fn initial_states(n: usize) -> (r: Vec<ImageState>)
    ensures
        states_view(r@) == initial_image_states(n as nat),
        r@.len() == n,
        states_wf(states_view(r@)),
{
    let mut v: Vec<ImageState> = Vec::new();
    for i in 0..n
        invariant
            v@.len() == i,
            states_view(v@) =~= initial_image_states(i as nat),
    {
        v.push(ImageState {
            layout: IMAGE_LAYOUT_UNDEFINED,
            pending_flush_access_flags: 0,
            pending_flush_pipeline_stage_flags: 0,
            invalidated: cleared(),
        });
        proof {
            let sv = states_view(v@);
            let want = initial_image_states((i + 1) as nat);
            assert(sv.len() == want.len());
            assert forall|j: int| 0 <= j < sv.len() implies sv[j] == want[j] by {
                if j < i {
                    assert(sv[j] == initial_image_states(i as nat)[j]);
                } else {
                    assert(v@[j].invalidated@ == all_cleared(MAX_PIPELINE_FLAG_BITS as nat));
                }
            }
            assert(sv =~= want);
        }
    }
    v
}

/// Walks the passes in order, tracking for each physical image its layout, the writes not yet
/// made visible and the accesses already made visible per pipeline stage. For each pass it
/// works out what the pass must wait for and make visible, sets the initial and final layouts
/// of its attachments, and either returns an external subpass dependency that also performs
/// the layout transitions or records a barrier to run before the pass.
#[verifier::rlimit(60)]
#[verifier::spinoff_prover]
pub fn build_pass_barriers(
    graph: &RenderGraphBuilder,
    _node_execution_order: &Vec<RenderGraphNodeId>,
    _image_constraints: &DetermineImageConstraintsResult,
    physical_images: &AssignPhysicalImagesResult,
    node_barriers: &Vec<Option<RenderGraphNodeImageBarriers>>,
    passes: &mut Vec<RenderGraphPass>,
) -> (r: Result<Vec<Vec<SubpassDependency>>, RenderGraphPlanError>)
    requires
        graph.wf(),
        forall|i: int| 0 <= i < graph.output_images@.len() ==> (#[trigger] graph.output_images@[i]).usage.0 < physical_images.usage_to_physical@.len()
            && physical_images.usage_to_physical@[graph.output_images@[i].usage.0 as int] is Some,
        passes_ready(old(passes)@, node_barriers@, physical_images.specifications@.len()),
    ensures
        ({
            let specs = physical_images.specifications@;
            let u2p = physical_images.usage_to_physical@;
            let nb = node_barriers@;
            let ps = old(passes)@;
            &&& r is Err <==> exists|k: int| 0 <= k < ps.len() && transitions_to_undefined(#[trigger] outcome_of_pass(*graph, ps, nb, specs, u2p, k))
            &&& r is Ok ==> {
                &&& r->Ok_0@.len() == ps.len()
                &&& final(passes)@.len() == ps.len()
                &&& forall|k: int| 0 <= k < ps.len() ==> {
                    let o = #[trigger] outcome_of_pass(*graph, ps, nb, specs, u2p, k);
                    let p0 = ps[k];
                    let p1 = final(passes)@[k];
                    &&& r->Ok_0@[k]@ == o.dependencies
                    &&& p1.attachments@ == o.attachments
                    &&& p1.subpasses == p0.subpasses
                    &&& p1.extents == p0.extents
                    &&& (o.uses_external_dependency ==> p1.pre_pass_barrier == p0.pre_pass_barrier)
                    &&& (!o.uses_external_dependency ==> p1.pre_pass_barrier is Some
                        && p1.pre_pass_barrier->0.src_stage == o.src_stage
                        && p1.pre_pass_barrier->0.dst_stage == o.dst_stage
                        && p1.pre_pass_barrier->0.image_barriers@ == o.image_barriers)
                }
            }
        }),
{
    let ghost specs = physical_images.specifications@;
    let ghost u2p = physical_images.usage_to_physical@;
    let ghost nb = node_barriers@;
    let ghost ps = passes@;
    let mut states = initial_states(physical_images.specifications.len());
    let mut pass_dependencies: Vec<Vec<SubpassDependency>> = Vec::new();
    let n = passes.len();
    for k in 0..n
        invariant
            n == passes@.len(),
            ps.len() == n,
            ps == old(passes)@,
            graph.wf(),
            forall|i: int| 0 <= i < graph.output_images@.len() ==> (#[trigger] graph.output_images@[i]).usage.0 < u2p.len()
                && u2p[graph.output_images@[i].usage.0 as int] is Some,
            specs == physical_images.specifications@,
            u2p == physical_images.usage_to_physical@,
            nb == node_barriers@,
            passes_ready(ps, nb, specs.len()),
            states@.len() == specs.len(),
            states_wf(states_view(states@)),
            states_view(states@) == states_before_pass(*graph, ps, nb, specs, u2p, k as nat),
            pass_dependencies@.len() == k,
            forall|j: int| k <= j < n ==> #[trigger] passes@[j] == ps[j],
            forall|j: int| 0 <= j < k ==> !transitions_to_undefined(#[trigger] outcome_of_pass(*graph, ps, nb, specs, u2p, j)),
            forall|j: int| 0 <= j < k ==> {
                let o = #[trigger] outcome_of_pass(*graph, ps, nb, specs, u2p, j);
                let p0 = ps[j];
                let p1 = passes@[j];
                &&& pass_dependencies@[j]@ == o.dependencies
                &&& p1.attachments@ == o.attachments
                &&& p1.subpasses == p0.subpasses
                &&& p1.extents == p0.extents
                &&& (o.uses_external_dependency ==> p1.pre_pass_barrier == p0.pre_pass_barrier)
                &&& (!o.uses_external_dependency ==> p1.pre_pass_barrier is Some
                    && p1.pre_pass_barrier->0.src_stage == o.src_stage
                    && p1.pre_pass_barrier->0.dst_stage == o.dst_stage
                    && p1.pre_pass_barrier->0.image_barriers@ == o.image_barriers)
            },
    {
        let mut pass = RenderGraphPass { attachments: Vec::new(), subpasses: Vec::new(), extents: None, pre_pass_barrier: None };
        passes.set_and_swap(k, &mut pass);
        proof {
            assert(pass == ps[k as int]);
            assert(passes_ready(ps, nb, specs.len()) ==> ps[k as int].subpasses@.len() == 1);
        }
        let node = pass.subpasses[0].node;
        let res = match &node_barriers[node.0] {
            Some(b) => build_barriers_for_pass(
                graph,
                &mut states,
                &mut pass.attachments,
                node,
                &b.barriers,
                &physical_images.specifications,
                &physical_images.usage_to_physical,
            ),
            None => {
                proof {
                    assert(false);
                }
                return Err(RenderGraphPlanError::TooManyImageUsages);
            },
        };
        match res {
            Err(e) => {
                proof {
                    assert(transitions_to_undefined(outcome_of_pass(*graph, ps, nb, specs, u2p, k as int)));
                    assert(0 <= k < ps.len());
                }
                return Err(e);
            },
            Ok((deps, pre)) => {
                if pre.is_some() {
                    pass.pre_pass_barrier = pre;
                }
                let ghost p1 = pass;
                passes.set_and_swap(k, &mut pass);
                pass_dependencies.push(deps);
                proof {
                    assert(states_view(states@) == states_before_pass(*graph, ps, nb, specs, u2p, (k + 1) as nat));
                    assert(passes@[k as int] == p1);
                    let o = outcome_of_pass(*graph, ps, nb, specs, u2p, k as int);
                    assert(pass_dependencies@[k as int]@ == o.dependencies);
                    assert(p1.attachments@ == o.attachments);
                }
            },
        }
    }
    proof {
        assert forall|k: int| 0 <= k < ps.len() implies !transitions_to_undefined(#[trigger] outcome_of_pass(*graph, ps, nb, specs, u2p, k)) by {}
    }
    Ok(pass_dependencies)
}


/// A pass never waits on an empty set of stages: the first pass, with nothing before it to
/// wait for, waits on the top of the pipe, as Vulkan requires a non-empty stage mask.
pub proof fn lemma_dependency_stages_nonempty(
    states0: Seq<ImageStateModel>,
    attachments0: Seq<RenderGraphPassAttachment>,
    node: RenderGraphNodeId,
    barriers: Seq<NodeImageBarrier>,
    specs: Seq<RenderGraphImageSpecification>,
    g: RenderGraphBuilder,
    u2p: Seq<Option<PhysicalImageId>>,
)
    ensures
        ({
            let o = pass_outcome(states0, attachments0, node, barriers, specs, g, u2p);
            &&& o.src_stage != 0
            &&& forall|i: int| 0 <= i < o.dependencies.len() ==> (#[trigger] o.dependencies[i]).src_stage_mask != 0
        }),
{
}


/// The layout the last of the first `n` barriers on image `j` asks for, if any.
pub open spec fn barrier_layout_for(barriers: Seq<NodeImageBarrier>, n: nat, j: int) -> Option<i32>
    decreases n,
{
    if n == 0 {
        None
    } else if barriers[n - 1].image.0 == j {
        Some(barriers[n - 1].barrier.layout)
    } else {
        barrier_layout_for(barriers, (n - 1) as nat, j)
    }
}

/// A layout transition made for barrier `i`: from the layout the image was in before the pass
/// to the layout the barrier asks for, which differ.
pub open spec fn transition_for(t: PrepassImageBarrier, barriers: Seq<NodeImageBarrier>, states0: Seq<ImageStateModel>, i: int) -> bool {
    &&& barriers[i].image == t.image
    &&& t.new_layout == barriers[i].barrier.layout
    &&& t.old_layout == states0[t.image.0 as int].layout
    &&& t.old_layout != t.new_layout
}

/// `t` is a layout transition made for one of the first `n` barriers.
pub open spec fn transition_of_some(t: PrepassImageBarrier, barriers: Seq<NodeImageBarrier>, states0: Seq<ImageStateModel>, n: int) -> bool {
    exists|i: int| 0 <= i < n && #[trigger] transition_for(t, barriers, states0, i)
}

proof fn lemma_barrier_layout_for_distinct(barriers: Seq<NodeImageBarrier>, i: int, n: nat)
    requires
        images_distinct(barriers),
        0 <= i < barriers.len(),
        n <= barriers.len(),
    ensures
        n <= i ==> barrier_layout_for(barriers, n, barriers[i].image.0 as int) is None,
        i < n ==> barrier_layout_for(barriers, n, barriers[i].image.0 as int) == Some(barriers[i].barrier.layout),
    decreases n,
{
    if n > 0 {
        lemma_barrier_layout_for_distinct(barriers, i, (n - 1) as nat);
        if n - 1 != i {
            assert(barriers[n - 1].image != barriers[i].image);
        }
    }
}

proof fn lemma_barrier_steps_layouts(sim0: PassSim, barriers: Seq<NodeImageBarrier>, use_external: bool, specs: Seq<RenderGraphImageSpecification>, n: nat)
    requires
        n <= barriers.len(),
        images_distinct(barriers),
        barriers_in_range(barriers, sim0.states.len()),
        sim0.transitions.len() == 0,
    ensures
        ({
            let sim = barrier_steps(sim0, barriers, use_external, specs, n);
            &&& sim.states.len() == sim0.states.len()
            &&& forall|j: int| 0 <= j < sim0.states.len() ==> (#[trigger] sim.states[j]).layout == match barrier_layout_for(barriers, n, j) {
                Some(l) => l,
                None => sim0.states[j].layout,
            }
            &&& forall|k: int| 0 <= k < sim.transitions.len() ==> transition_of_some(#[trigger] sim.transitions[k], barriers, sim0.states, n as int)
        }),
    decreases n,
{
    if n > 0 {
        lemma_barrier_steps_layouts(sim0, barriers, use_external, specs, (n - 1) as nat);
        let prev = barrier_steps(sim0, barriers, use_external, specs, (n - 1) as nat);
        let sim = barrier_steps(sim0, barriers, use_external, specs, n);
        let e = barriers[n - 1];
        let p = e.image.0 as int;
        assert(p < sim0.states.len());
        assert(sim == barrier_step(prev, e, use_external, specs));
        assert forall|j: int| 0 <= j < sim0.states.len() implies (#[trigger] sim.states[j]).layout == match barrier_layout_for(barriers, n, j) {
            Some(l) => l,
            None => sim0.states[j].layout,
        } by {
            if j != p {
                assert(sim.states[j] == prev.states[j]);
            }
        }
        lemma_barrier_layout_for_distinct(barriers, n - 1, (n - 1) as nat);
        assert forall|k: int| 0 <= k < sim.transitions.len() implies transition_of_some(#[trigger] sim.transitions[k], barriers, sim0.states, n as int) by {
            if k < prev.transitions.len() {
                assert(sim.transitions[k] == prev.transitions[k]);
                let i = choose|i: int| 0 <= i < n - 1 && transition_for(prev.transitions[k], barriers, sim0.states, i);
                assert(0 <= i < n && transition_for(sim.transitions[k], barriers, sim0.states, i));
            } else {
                assert(transition_for(sim.transitions[k], barriers, sim0.states, n - 1));
            }
        }
    }
}

proof fn lemma_flush_steps_keep_layouts(states: Seq<ImageStateModel>, barriers: Seq<NodeImageBarrier>, n: nat)
    requires
        n <= barriers.len(),
        barriers_in_range(barriers, states.len()),
    ensures
        flush_steps(states, barriers, n).len() == states.len(),
        forall|j: int| 0 <= j < states.len() ==> (#[trigger] flush_steps(states, barriers, n)[j]).layout == states[j].layout,
    decreases n,
{
    if n > 0 {
        lemma_flush_steps_keep_layouts(states, barriers, (n - 1) as nat);
        let prev = flush_steps(states, barriers, (n - 1) as nat);
        let r = flush_steps(states, barriers, n);
        assert(barriers[n - 1].image.0 < states.len());
        assert forall|j: int| 0 <= j < states.len() implies (#[trigger] r[j]).layout == states[j].layout by {
            assert(r[j].layout == prev[j].layout);
        }
    }
}

/// After a pass, each image the node has a barrier for is in the layout that barrier asks for,
/// and every other image is in the layout it was in; each layout transition of the pre-pass
/// barrier takes an image with a barrier from the layout it was in to the one the barrier asks
/// for, and only where the two differ.
pub proof fn lemma_pass_outcome_layouts(
    states0: Seq<ImageStateModel>,
    attachments0: Seq<RenderGraphPassAttachment>,
    node: RenderGraphNodeId,
    barriers: Seq<NodeImageBarrier>,
    specs: Seq<RenderGraphImageSpecification>,
    g: RenderGraphBuilder,
    u2p: Seq<Option<PhysicalImageId>>,
)
    requires
        images_distinct(barriers),
        barriers_in_range(barriers, states0.len()),
    ensures
        ({
            let o = pass_outcome(states0, attachments0, node, barriers, specs, g, u2p);
            &&& o.states.len() == states0.len()
            &&& forall|i: int| 0 <= i < barriers.len() ==> o.states[(#[trigger] barriers[i]).image.0 as int].layout == barriers[i].barrier.layout
            &&& forall|j: int| 0 <= j < states0.len() && barrier_layout_for(barriers, barriers.len(), j) is None
                ==> (#[trigger] o.states[j]).layout == states0[j].layout
            &&& forall|k: int| 0 <= k < o.image_barriers.len() ==> transition_of_some(#[trigger] o.image_barriers[k], barriers, states0, barriers.len() as int)
        }),
{
    let use_external = can_use_external_dependency(states0, specs, barriers);
    let sim0 = PassSim {
        src_access: 0,
        src_stage: 0,
        dst_access: 0,
        dst_stage: 0,
        states: states0,
        attachments: attachments0,
        initial: Seq::new(attachments0.len(), |j: int| None::<i32>),
        transitions: Seq::empty(),
    };
    lemma_barrier_steps_layouts(sim0, barriers, use_external, specs, barriers.len());
    let sim = barrier_steps(sim0, barriers, use_external, specs, barriers.len());
    let settled = Seq::new(sim.states.len(), |i: int| settle_state(sim.states[i], sim.src_access, sim.src_stage, sim.dst_access, sim.dst_stage));
    lemma_flush_steps_keep_layouts(settled, barriers, barriers.len());
    let o = pass_outcome(states0, attachments0, node, barriers, specs, g, u2p);
    assert forall|i: int| 0 <= i < barriers.len() implies o.states[(#[trigger] barriers[i]).image.0 as int].layout == barriers[i].barrier.layout by {
        lemma_barrier_layout_for_distinct(barriers, i, barriers.len());
        let j = barriers[i].image.0 as int;
        assert(o.states[j].layout == settled[j].layout);
        assert(settled[j].layout == sim.states[j].layout);
    }
    assert forall|j: int| 0 <= j < states0.len() && barrier_layout_for(barriers, barriers.len(), j) is None
        implies (#[trigger] o.states[j]).layout == states0[j].layout by {
        assert(o.states[j].layout == settled[j].layout);
        assert(settled[j].layout == sim.states[j].layout);
    }
    assert forall|k: int| 0 <= k < o.image_barriers.len() implies transition_of_some(#[trigger] o.image_barriers[k], barriers, states0, barriers.len() as int) by {
        let i = choose|i: int| 0 <= i < barriers.len() && transition_for(sim.transitions[k], barriers, states0, i);
        assert(transition_for(o.image_barriers[k], barriers, states0, i));
    }
}

proof fn lemma_find_attachment_same_images(a: Seq<RenderGraphPassAttachment>, b: Seq<RenderGraphPassAttachment>, p: PhysicalImageId, n: nat)
    requires
        n <= a.len(),
        n <= b.len(),
        forall|k: int| 0 <= k < n ==> a[k].image == b[k].image,
    ensures
        find_attachment(a, p, n) == find_attachment(b, p, n),
    decreases n,
{
    if n > 0 {
        lemma_find_attachment_same_images(a, b, p, (n - 1) as nat);
    }
}

proof fn lemma_find_attachment_found(atts: Seq<RenderGraphPassAttachment>, p: PhysicalImageId, n: nat)
    requires
        n <= atts.len(),
    ensures
        -1 <= find_attachment(atts, p, n) < n,
        find_attachment(atts, p, n) >= 0 ==> atts[find_attachment(atts, p, n)].image == Some(p),
    decreases n,
{
    if n > 0 {
        lemma_find_attachment_found(atts, p, (n - 1) as nat);
    }
}

/// The index of the barrier among the first `n` that binds attachment `j` (through the
/// attachment's physical image), or -1.
pub open spec fn touch_index(atts: Seq<RenderGraphPassAttachment>, barriers: Seq<NodeImageBarrier>, n: nat, j: int) -> int
    decreases n,
{
    if n == 0 {
        -1
    } else if find_attachment(atts, barriers[n - 1].image, atts.len()) == j {
        n - 1
    } else {
        touch_index(atts, barriers, (n - 1) as nat, j)
    }
}

proof fn lemma_touch_index_range(atts: Seq<RenderGraphPassAttachment>, barriers: Seq<NodeImageBarrier>, n: nat, j: int)
    requires
        0 <= j,
        n <= barriers.len(),
    ensures
        -1 <= touch_index(atts, barriers, n, j) < n,
        touch_index(atts, barriers, n, j) >= 0 ==> find_attachment(atts, barriers[touch_index(atts, barriers, n, j)].image, atts.len()) == j,
    decreases n,
{
    if n > 0 {
        lemma_touch_index_range(atts, barriers, (n - 1) as nat, j);
    }
}

/// What barrier `i` makes of the attachment it binds: the initial layout is the image's layout
/// before the pass when the renderpass's external dependency does the transition, else the
/// barrier's layout; the final layout is the barrier's layout.
pub open spec fn bound_attachment(
    a: RenderGraphPassAttachment,
    e: NodeImageBarrier,
    states0: Seq<ImageStateModel>,
    use_external: bool,
) -> RenderGraphPassAttachment {
    RenderGraphPassAttachment {
        initial_layout: if use_external {
            states0[e.image.0 as int].layout
        } else {
            e.barrier.layout
        },
        final_layout: e.barrier.layout,
        ..a
    }
}

proof fn lemma_barrier_steps_attachments(sim0: PassSim, barriers: Seq<NodeImageBarrier>, use_external: bool, specs: Seq<RenderGraphImageSpecification>, n: nat)
    requires
        n <= barriers.len(),
        images_distinct(barriers),
        barriers_in_range(barriers, sim0.states.len()),
        sim0.transitions.len() == 0,
        sim0.initial.len() == sim0.attachments.len(),
        forall|j: int| 0 <= j < sim0.initial.len() ==> (#[trigger] sim0.initial[j]) is None,
    ensures
        ({
            let sim = barrier_steps(sim0, barriers, use_external, specs, n);
            let atts0 = sim0.attachments;
            &&& sim.attachments.len() == atts0.len()
            &&& sim.initial.len() == atts0.len()
            &&& forall|j: int| 0 <= j < atts0.len() ==> ((#[trigger] sim.initial[j]) is Some <==> touch_index(atts0, barriers, n, j) >= 0)
            &&& forall|j: int| 0 <= j < atts0.len() ==> #[trigger] sim.attachments[j] == if touch_index(atts0, barriers, n, j) >= 0 {
                bound_attachment(atts0[j], barriers[touch_index(atts0, barriers, n, j)], sim0.states, use_external)
            } else {
                atts0[j]
            }
        }),
    decreases n,
{
    let atts0 = sim0.attachments;
    if n > 0 {
        lemma_barrier_steps_attachments(sim0, barriers, use_external, specs, (n - 1) as nat);
        lemma_barrier_steps_layouts(sim0, barriers, use_external, specs, (n - 1) as nat);
        let prev = barrier_steps(sim0, barriers, use_external, specs, (n - 1) as nat);
        let sim = barrier_steps(sim0, barriers, use_external, specs, n);
        let e = barriers[n - 1];
        let p = e.image.0 as int;
        assert(p < sim0.states.len());
        assert(sim == barrier_step(prev, e, use_external, specs));
        assert forall|k: int| 0 <= k < atts0.len() implies prev.attachments[k].image == atts0[k].image by {
            lemma_touch_index_range(atts0, barriers, (n - 1) as nat, k);
        }
        lemma_find_attachment_same_images(prev.attachments, atts0, e.image, atts0.len());
        lemma_find_attachment_found(atts0, e.image, atts0.len());
        let ai = find_attachment(atts0, e.image, atts0.len());
        lemma_barrier_layout_for_distinct(barriers, n - 1, (n - 1) as nat);
        assert(prev.states[p].layout == sim0.states[p].layout);
        if ai >= 0 {
            lemma_touch_index_range(atts0, barriers, (n - 1) as nat, ai);
            let t = touch_index(atts0, barriers, (n - 1) as nat, ai);
            if t >= 0 {
                lemma_find_attachment_found(atts0, barriers[t].image, atts0.len());
                assert(barriers[t].image == e.image);
                assert(false);
            }
            assert(prev.initial[ai] is None);
        }
        assert forall|j: int| 0 <= j < atts0.len() implies ((#[trigger] sim.initial[j]) is Some <==> touch_index(atts0, barriers, n, j) >= 0) by {
            lemma_touch_index_range(atts0, barriers, (n - 1) as nat, j);
        }
        assert forall|j: int| 0 <= j < atts0.len() implies #[trigger] sim.attachments[j] == if touch_index(atts0, barriers, n, j) >= 0 {
            bound_attachment(atts0[j], barriers[touch_index(atts0, barriers, n, j)], sim0.states, use_external)
        } else {
            atts0[j]
        } by {
            lemma_touch_index_range(atts0, barriers, (n - 1) as nat, j);
            if j != ai {
                assert(sim.attachments[j] == prev.attachments[j]);
            }
        }
    }
}

/// The final layout the last of the first `n` output images that `node` creates on physical
/// image `p` asks for, if any.
pub open spec fn output_layout_for(g: RenderGraphBuilder, u2p: Seq<Option<PhysicalImageId>>, node: RenderGraphNodeId, image: Option<PhysicalImageId>, n: nat) -> Option<i32>
    decreases n,
{
    if n == 0 {
        None
    } else {
        let o = g.output_images@[n - 1];
        if g.spec_creator(o.usage) == node && image == Some(u2p[o.usage.0 as int]->0) {
            Some(o.final_layout)
        } else {
            output_layout_for(g, u2p, node, image, (n - 1) as nat)
        }
    }
}

proof fn lemma_output_final_layouts(
    atts: Seq<RenderGraphPassAttachment>,
    g: RenderGraphBuilder,
    u2p: Seq<Option<PhysicalImageId>>,
    node: RenderGraphNodeId,
    n: nat,
)
    requires
        n <= g.output_images@.len(),
    ensures
        output_final_layouts(atts, g, u2p, node, n).len() == atts.len(),
        forall|j: int| 0 <= j < atts.len() ==> #[trigger] output_final_layouts(atts, g, u2p, node, n)[j] == (RenderGraphPassAttachment {
            final_layout: match output_layout_for(g, u2p, node, atts[j].image, n) {
                Some(l) => l,
                None => atts[j].final_layout,
            },
            ..atts[j]
        }),
    decreases n,
{
    if n > 0 {
        lemma_output_final_layouts(atts, g, u2p, node, (n - 1) as nat);
    }
}

/// The attachment that a node's barrier binds (through its physical image) starts the pass in
/// the image's layout before the pass when the renderpass's external dependency transitions it,
/// and in the barrier's layout when the pre-pass barrier does; it ends the pass in the barrier's
/// layout, or, for an output image the node creates, in the output's final layout.
pub proof fn lemma_pass_outcome_attachment_layouts(
    states0: Seq<ImageStateModel>,
    attachments0: Seq<RenderGraphPassAttachment>,
    node: RenderGraphNodeId,
    barriers: Seq<NodeImageBarrier>,
    specs: Seq<RenderGraphImageSpecification>,
    g: RenderGraphBuilder,
    u2p: Seq<Option<PhysicalImageId>>,
    i: int,
)
    requires
        images_distinct(barriers),
        barriers_in_range(barriers, states0.len()),
        0 <= i < barriers.len(),
        find_attachment(attachments0, barriers[i].image, attachments0.len()) >= 0,
    ensures
        ({
            let e = barriers[i];
            let ai = find_attachment(attachments0, e.image, attachments0.len());
            let o = pass_outcome(states0, attachments0, node, barriers, specs, g, u2p);
            &&& o.attachments.len() == attachments0.len()
            &&& o.attachments[ai].initial_layout == if can_use_external_dependency(states0, specs, barriers) {
                states0[e.image.0 as int].layout
            } else {
                e.barrier.layout
            }
            &&& o.attachments[ai].final_layout == match output_layout_for(g, u2p, node, Some(e.image), g.output_images@.len()) {
                Some(l) => l,
                None => e.barrier.layout,
            }
        }),
{
    let use_external = can_use_external_dependency(states0, specs, barriers);
    let sim0 = PassSim {
        src_access: 0,
        src_stage: 0,
        dst_access: 0,
        dst_stage: 0,
        states: states0,
        attachments: attachments0,
        initial: Seq::new(attachments0.len(), |j: int| None::<i32>),
        transitions: Seq::empty(),
    };
    let e = barriers[i];
    let ai = find_attachment(attachments0, e.image, attachments0.len());
    lemma_find_attachment_found(attachments0, e.image, attachments0.len());
    lemma_barrier_steps_attachments(sim0, barriers, use_external, specs, barriers.len());
    let sim = barrier_steps(sim0, barriers, use_external, specs, barriers.len());
    lemma_touch_index_range(attachments0, barriers, barriers.len(), ai);
    let t = touch_index(attachments0, barriers, barriers.len(), ai);
    assert(t >= 0) by {
        lemma_touch_index_found(attachments0, barriers, barriers.len(), i, ai);
    }
    lemma_find_attachment_found(attachments0, barriers[t].image, attachments0.len());
    assert(barriers[t].image == e.image);
    if t != i {
        assert(barriers[t].image != barriers[i].image);
    }
    lemma_output_final_layouts(sim.attachments, g, u2p, node, g.output_images@.len());
}

proof fn lemma_touch_index_found(atts: Seq<RenderGraphPassAttachment>, barriers: Seq<NodeImageBarrier>, n: nat, i: int, j: int)
    requires
        0 <= i < n <= barriers.len(),
        0 <= j,
        find_attachment(atts, barriers[i].image, atts.len()) == j,
    ensures
        touch_index(atts, barriers, n, j) >= 0,
    decreases n,
{
    if n - 1 != i && find_attachment(atts, barriers[n - 1].image, atts.len()) != j {
        lemma_touch_index_found(atts, barriers, (n - 1) as nat, i, j);
    }
}
} // verus!
