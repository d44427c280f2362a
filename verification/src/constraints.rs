use vstd::prelude::*;
use crate::image_spec::{RenderGraphImageConstraint, RenderGraphImageSpecification, lemma_constraint_merged_has_flags, lemma_constraint_has_flags_order, flags_include};
use crate::graph::{
    RenderGraphBuilder, RenderGraphNodeId, RenderGraphImageUsageId, RenderGraphImageCreate,
    RenderGraphImageRead, RenderGraphImageModify,
};

verus! {

/// What is known about each image usage while constraints are propagated, indexed by usage id.
/// `None` means the usage has no entry yet.
pub type ConstraintState = Seq<Option<RenderGraphImageConstraint>>;

/// Why image specifications could not be determined.
#[derive(Clone, Copy, Debug, PartialEq, Eq, Structural)]
pub enum ImageConstraintError {
    /// An image being created already carried contradicting constraints.
    ConflictingCreate(RenderGraphImageUsageId),
    /// Not enough is known about an image being read to create it.
    UnderdeterminedRead(RenderGraphImageUsageId),
    /// Not enough is known about an image version to create it.
    UnderdeterminedImage(RenderGraphImageUsageId),
}

/// The specification of each image usage, indexed by usage id (`None` for usages of culled
/// nodes).
#[derive(Clone, Debug)]
pub struct DetermineImageConstraintsResult {
    pub images: Vec<Option<RenderGraphImageSpecification>>,
}

impl DetermineImageConstraintsResult {
    pub open spec fn spec_specification(&self, u: RenderGraphImageUsageId) -> Option<RenderGraphImageSpecification> {
        if u.0 < self.images@.len() {
            self.images@[u.0 as int]
        } else {
            None
        }
    }

    /// The specification determined for usage `u`, if any.
    pub fn specification(&self, u: RenderGraphImageUsageId) -> (r: Option<RenderGraphImageSpecification>)
        ensures
            r == self.spec_specification(u),
    {
        if u.0 < self.images.len() {
            self.images[u.0]
        } else {
            None
        }
    }
}

/// The constraint recorded for usage `k`, or the empty constraint when there is none.
pub open spec fn entry(st: ConstraintState, k: int) -> RenderGraphImageConstraint {
    if st[k] is Some {
        st[k]->0
    } else {
        RenderGraphImageConstraint::spec_empty()
    }
}

/// Makes sure usage `k` has an entry.
pub open spec fn touch(st: ConstraintState, k: int) -> ConstraintState {
    st.update(k, Some(entry(st, k)))
}

pub open spec fn create_usage_of(g: RenderGraphBuilder, u: RenderGraphImageUsageId) -> int {
    g.spec_version_info(u).create_usage.0 as int
}

// ---- forward propagation ----

/// Input images are fully specified.
pub open spec fn fwd_inputs(g: RenderGraphBuilder, st: ConstraintState, n: nat) -> ConstraintState
    decreases n,
{
    if n == 0 {
        st
    } else {
        let prev = fwd_inputs(g, st, (n - 1) as nat);
        let input = g.input_images@[n - 1];
        prev.update(
            create_usage_of(g, input.usage),
            Some(RenderGraphImageConstraint::spec_from_specification(input.specification)),
        )
    }
}

pub open spec fn fwd_create(g: RenderGraphBuilder, st: ConstraintState, c: RenderGraphImageCreate) -> Result<ConstraintState, ImageConstraintError> {
    let k = create_usage_of(g, c.image);
    let cur = entry(st, k);
    if cur.spec_can_merge(c.constraint) {
        Ok(st.update(k, Some(cur.spec_merged(c.constraint))))
    } else {
        Err(ImageConstraintError::ConflictingCreate(c.image))
    }
}

/// Creating an image constrains its version: when nothing already known contradicts the
/// create's constraint, the version keeps every flag it had, gains every flag of the create, and
/// every field the create fixes takes the create's value; nothing else changes.
pub proof fn lemma_create_constrains_version(g: RenderGraphBuilder, st: ConstraintState, c: RenderGraphImageCreate)
    requires
        0 <= create_usage_of(g, c.image) < st.len(),
        fwd_create(g, st, c) is Ok,
    ensures
        ({
            let k = create_usage_of(g, c.image);
            let st1 = fwd_create(g, st, c)->Ok_0;
            let v = st1[k]->0;
            &&& st1.len() == st.len()
            &&& st1[k] is Some
            &&& v.spec_has_flags_of(c.constraint)
            &&& v.spec_has_flags_of(entry(st, k))
            &&& c.constraint.format is Some ==> v.format == c.constraint.format
            &&& c.constraint.samples is Some ==> v.samples == c.constraint.samples
            &&& c.constraint.extents is Some ==> v.extents == c.constraint.extents
            &&& c.constraint.layer_count is Some ==> v.layer_count == c.constraint.layer_count
            &&& c.constraint.mip_count is Some ==> v.mip_count == c.constraint.mip_count
            &&& forall|j: int| 0 <= j < st.len() && j != k ==> st1[j] == st[j]
        }),
{
    let k = create_usage_of(g, c.image);
    lemma_constraint_merged_has_flags(entry(st, k), c.constraint);
}

pub open spec fn fwd_creates(g: RenderGraphBuilder, st: ConstraintState, cs: Seq<RenderGraphImageCreate>, n: nat) -> Result<ConstraintState, ImageConstraintError>
    decreases n,
{
    if n == 0 {
        Ok(st)
    } else {
        match fwd_creates(g, st, cs, (n - 1) as nat) {
            Ok(prev) => fwd_create(g, prev, cs[n - 1]),
            Err(e) => Err(e),
        }
    }
}

/// A modify carries what is known of its input, merged with its own constraint, forward into
/// the version it writes.
pub open spec fn fwd_modify(g: RenderGraphBuilder, st: ConstraintState, m: RenderGraphImageModify) -> ConstraintState {
    let ki = create_usage_of(g, m.input);
    let st1 = touch(st, ki);
    let merged = m.constraint.spec_merged(entry(st1, ki));
    let ko = create_usage_of(g, m.output);
    st1.update(ko, Some(entry(st1, ko).spec_merged(merged)))
}

/// A modify carries its input forward: the version it writes keeps every flag it had and gains
/// every flag of the modify's constraint and of the version it reads; nothing but those two
/// versions changes, and the version read keeps what it had.
pub proof fn lemma_modify_carries_forward(g: RenderGraphBuilder, st: ConstraintState, m: RenderGraphImageModify)
    requires
        0 <= create_usage_of(g, m.input) < st.len(),
        0 <= create_usage_of(g, m.output) < st.len(),
    ensures
        ({
            let ki = create_usage_of(g, m.input);
            let ko = create_usage_of(g, m.output);
            let st1 = fwd_modify(g, st, m);
            &&& st1.len() == st.len()
            &&& st1[ko] is Some
            &&& (st1[ko]->0).spec_has_flags_of(m.constraint)
            &&& (st1[ko]->0).spec_has_flags_of(entry(st, ki))
            &&& (st1[ko]->0).spec_has_flags_of(entry(st, ko))
            &&& st1[ki] is Some
            &&& ki != ko ==> st1[ki]->0 == entry(st, ki)
            &&& forall|j: int| 0 <= j < st.len() && j != ki && j != ko ==> st1[j] == st[j]
        }),
{
    let ki = create_usage_of(g, m.input);
    let ko = create_usage_of(g, m.output);
    let ei = entry(st, ki);
    let merged = m.constraint.spec_merged(ei);
    let eo = entry(touch(st, ki), ko);
    lemma_constraint_merged_has_flags(m.constraint, ei);
    lemma_constraint_merged_has_flags(eo, merged);
    let v = eo.spec_merged(merged);
    lemma_constraint_has_flags_order(v, merged, m.constraint);
    lemma_constraint_has_flags_order(v, merged, ei);
    assert(eo == entry(st, ko));
}

pub open spec fn fwd_modifies(g: RenderGraphBuilder, st: ConstraintState, ms: Seq<RenderGraphImageModify>, n: nat) -> ConstraintState
    decreases n,
{
    if n == 0 {
        st
    } else {
        fwd_modify(g, fwd_modifies(g, st, ms, (n - 1) as nat), ms[n - 1])
    }
}

pub open spec fn fwd_node(g: RenderGraphBuilder, st: ConstraintState, id: RenderGraphNodeId) -> Result<ConstraintState, ImageConstraintError> {
    let node = g.spec_node(id);
    match fwd_creates(g, st, node.image_creates@, node.image_creates@.len()) {
        Ok(s) => Ok(fwd_modifies(g, s, node.image_modifies@, node.image_modifies@.len())),
        Err(e) => Err(e),
    }
}

pub open spec fn fwd_nodes(g: RenderGraphBuilder, st: ConstraintState, order: Seq<RenderGraphNodeId>, n: nat) -> Result<ConstraintState, ImageConstraintError>
    decreases n,
{
    if n == 0 {
        Ok(st)
    } else {
        match fwd_nodes(g, st, order, (n - 1) as nat) {
            Ok(prev) => fwd_node(g, prev, order[n - 1]),
            Err(e) => Err(e),
        }
    }
}

/// Output images are fully specified by the caller.
pub open spec fn fwd_outputs(g: RenderGraphBuilder, st: ConstraintState, n: nat) -> ConstraintState
    decreases n,
{
    if n == 0 {
        st
    } else {
        let prev = fwd_outputs(g, st, (n - 1) as nat);
        let out = g.output_images@[n - 1];
        let k = create_usage_of(g, out.usage);
        let c = RenderGraphImageConstraint::spec_from_specification(out.specification);
        prev.update(k, Some(entry(prev, k).spec_merged(c))).update(out.usage.0 as int, Some(c))
    }
}

// ---- backward propagation ----

pub open spec fn bwd_read(g: RenderGraphBuilder, st: ConstraintState, r: RenderGraphImageRead) -> Result<ConstraintState, ImageConstraintError> {
    let k = create_usage_of(g, r.image);
    let vs = entry(st, k).spec_merged(r.constraint);
    let st1 = st.update(k, Some(vs));
    let rc = r.constraint.spec_merged(vs);
    match rc.spec_to_specification() {
        Some(s) => Ok(st1.update(r.image.0 as int, Some(RenderGraphImageConstraint::spec_from_specification(s)))),
        None => Err(ImageConstraintError::UnderdeterminedRead(r.image)),
    }
}

/// Reading a version merges the read's constraint back into the version: afterwards the
/// version's create usage has every aspect, usage and create flag of the read's constraint and
/// keeps those it had, the read usage has all of them too, and no other usage changes.
pub proof fn lemma_read_flows_back(g: RenderGraphBuilder, st: ConstraintState, r: RenderGraphImageRead)
    requires
        0 <= create_usage_of(g, r.image) < st.len(),
        r.image.0 < st.len(),
        bwd_read(g, st, r) is Ok,
    ensures
        ({
            let k = create_usage_of(g, r.image);
            let st1 = bwd_read(g, st, r)->Ok_0;
            &&& st1.len() == st.len()
            &&& st1[k] is Some
            &&& (st1[k]->0).spec_has_flags_of(r.constraint)
            &&& (st1[k]->0).spec_has_flags_of(entry(st, k))
            &&& st1[r.image.0 as int] is Some
            &&& (st1[r.image.0 as int]->0).spec_has_flags_of(r.constraint)
            &&& (st1[r.image.0 as int]->0).spec_has_flags_of(entry(st, k))
            &&& forall|j: int| 0 <= j < st.len() && j != k && j != r.image.0 ==> st1[j] == st[j]
            &&& r.image.0 != k ==> {
                let v = st1[k]->0;
                let e = entry(st, k);
                &&& e.format is Some ==> v.format == e.format
                &&& e.samples is Some ==> v.samples == e.samples
                &&& e.extents is Some ==> v.extents == e.extents
                &&& e.format is None ==> v.format == r.constraint.format
            }
            &&& {
                let ru = st1[r.image.0 as int]->0;
                &&& r.constraint.format is Some ==> ru.format == r.constraint.format
                &&& r.constraint.samples is Some ==> ru.samples == r.constraint.samples
                &&& r.constraint.extents is Some ==> ru.extents == r.constraint.extents
                &&& r.constraint.layer_count is Some ==> ru.layer_count == r.constraint.layer_count
                &&& r.constraint.mip_count is Some ==> ru.mip_count == r.constraint.mip_count
            }
        }),
{
    let k = create_usage_of(g, r.image);
    let e = entry(st, k);
    let vs = e.spec_merged(r.constraint);
    let rc = r.constraint.spec_merged(vs);
    lemma_constraint_merged_has_flags(e, r.constraint);
    lemma_constraint_merged_has_flags(r.constraint, vs);
    lemma_constraint_has_flags_order(rc, vs, r.constraint);
    lemma_constraint_has_flags_order(rc, vs, e);
    let s = rc.spec_to_specification()->0;
    assert(RenderGraphImageConstraint::spec_from_specification(s).spec_has_flags_of(r.constraint));
    assert(RenderGraphImageConstraint::spec_from_specification(s).spec_has_flags_of(e));
}

pub open spec fn bwd_reads(g: RenderGraphBuilder, st: ConstraintState, rs: Seq<RenderGraphImageRead>, n: nat) -> Result<ConstraintState, ImageConstraintError>
    decreases n,
{
    if n == 0 {
        Ok(st)
    } else {
        match bwd_reads(g, st, rs, (n - 1) as nat) {
            Ok(prev) => bwd_read(g, prev, rs[n - 1]),
            Err(e) => Err(e),
        }
    }
}

/// What is known of the version a modify writes flows back into the version it reads.
pub open spec fn bwd_modify(g: RenderGraphBuilder, st: ConstraintState, m: RenderGraphImageModify) -> ConstraintState {
    let ko = create_usage_of(g, m.output);
    let st1 = touch(st, ko);
    let out_c = entry(st1, ko);
    let ki = create_usage_of(g, m.input);
    let st2 = st1.update(ki, Some(entry(st1, ki).spec_merged(out_c)));
    st2.update(m.input.0 as int, Some(out_c))
}

/// What is known of the version a modify writes flows back: the version it reads gains every
/// flag of it, and the modify's input usage takes it as its constraint. The version read keeps
/// the flags it had unless the input usage is that version's own create usage; nothing else
/// changes but the version written, which keeps what it had.
pub proof fn lemma_modify_flows_back(g: RenderGraphBuilder, st: ConstraintState, m: RenderGraphImageModify)
    requires
        0 <= create_usage_of(g, m.input) < st.len(),
        0 <= create_usage_of(g, m.output) < st.len(),
        m.input.0 < st.len(),
    ensures
        ({
            let ki = create_usage_of(g, m.input);
            let ko = create_usage_of(g, m.output);
            let out_c = entry(st, ko);
            let st1 = bwd_modify(g, st, m);
            &&& st1.len() == st.len()
            &&& st1[m.input.0 as int] == Some(out_c)
            &&& st1[ki] is Some
            &&& (st1[ki]->0).spec_has_flags_of(out_c)
            &&& m.input.0 != ki ==> (st1[ki]->0).spec_has_flags_of(entry(st, ki))
            &&& ko != ki && ko != m.input.0 ==> st1[ko] == Some(out_c)
            &&& forall|j: int| 0 <= j < st.len() && j != ki && j != ko && j != m.input.0 ==> st1[j] == st[j]
        }),
{
    let ki = create_usage_of(g, m.input);
    let ko = create_usage_of(g, m.output);
    let out_c = entry(st, ko);
    let st1 = touch(st, ko);
    lemma_constraint_merged_has_flags(entry(st1, ki), out_c);
    lemma_constraint_has_flags_order(out_c, out_c, out_c);
    if ki != ko {
        assert(entry(st1, ki) == entry(st, ki));
    }
}

pub open spec fn bwd_modifies(g: RenderGraphBuilder, st: ConstraintState, ms: Seq<RenderGraphImageModify>, n: nat) -> ConstraintState
    decreases n,
{
    if n == 0 {
        st
    } else {
        bwd_modify(g, bwd_modifies(g, st, ms, (n - 1) as nat), ms[n - 1])
    }
}

pub open spec fn bwd_node(g: RenderGraphBuilder, st: ConstraintState, id: RenderGraphNodeId) -> Result<ConstraintState, ImageConstraintError> {
    let node = g.spec_node(id);
    match bwd_reads(g, st, node.image_reads@, node.image_reads@.len()) {
        Ok(s) => Ok(bwd_modifies(g, s, node.image_modifies@, node.image_modifies@.len())),
        Err(e) => Err(e),
    }
}

/// Visits the last `n` nodes of `order`, last node first.
pub open spec fn bwd_nodes(g: RenderGraphBuilder, st: ConstraintState, order: Seq<RenderGraphNodeId>, n: nat) -> Result<ConstraintState, ImageConstraintError>
    decreases n,
{
    if n == 0 {
        Ok(st)
    } else {
        match bwd_nodes(g, st, order, (n - 1) as nat) {
            Ok(prev) => bwd_node(g, prev, order[order.len() - n]),
            Err(e) => Err(e),
        }
    }
}

// ---- conversion ----

/// Converts the first `n` entries into specifications.
pub open spec fn to_specifications(st: ConstraintState, n: nat) -> Result<Seq<Option<RenderGraphImageSpecification>>, ImageConstraintError>
    decreases n,
{
    if n == 0 {
        Ok(Seq::empty())
    } else {
        match to_specifications(st, (n - 1) as nat) {
            Ok(prev) => if st[n - 1] is Some {
                match (st[n - 1]->0).spec_to_specification() {
                    Some(s) => Ok(prev.push(Some(s))),
                    None => Err(ImageConstraintError::UnderdeterminedImage(RenderGraphImageUsageId((n - 1) as usize))),
                }
            } else {
                Ok(prev.push(None))
            },
            Err(e) => Err(e),
        }
    }
}

/// The whole propagation: inputs, forward through the nodes, outputs, backward through the
/// nodes, then conversion of everything known into specifications.
pub open spec fn spec_determine_image_constraints(g: RenderGraphBuilder, order: Seq<RenderGraphNodeId>) -> Result<Seq<Option<RenderGraphImageSpecification>>, ImageConstraintError> {
    let st0 = Seq::new(g.image_usages@.len(), |i: int| None::<RenderGraphImageConstraint>);
    let st1 = fwd_inputs(g, st0, g.input_images@.len());
    match fwd_nodes(g, st1, order, order.len()) {
        Ok(st2) => {
            let st3 = fwd_outputs(g, st2, g.output_images@.len());
            match bwd_nodes(g, st3, order, order.len()) {
                Ok(st4) => to_specifications(st4, st4.len()),
                Err(e) => Err(e),
            }
        },
        Err(e) => Err(e),
    }
}


fn entry_or_default(st: &mut Vec<Option<RenderGraphImageConstraint>>, k: usize) -> (r: RenderGraphImageConstraint)
    requires
        k < old(st)@.len(),
    ensures
        r == entry(old(st)@, k as int),
        final(st)@ == touch(old(st)@, k as int),
{
    match st[k] {
        Some(c) => {
            proof {
                assert(st@ == touch(st@, k as int));
            }
            c
        },
        None => {
            let c = RenderGraphImageConstraint::empty();
            st.set(k, Some(c));
            c
        },
    }
}

fn exec_fwd_create(graph: &RenderGraphBuilder, st: &mut Vec<Option<RenderGraphImageConstraint>>, c: &RenderGraphImageCreate) -> (r: Result<(), ImageConstraintError>)
    requires
        graph.wf(),
        old(st)@.len() == graph.image_usages@.len(),
        c.image.0 < graph.image_usages@.len(),
    ensures
        final(st)@.len() == old(st)@.len(),
        match r {
            Ok(_) => fwd_create(*graph, old(st)@, *c) == Ok::<ConstraintState, ImageConstraintError>(final(st)@),
            Err(e) => fwd_create(*graph, old(st)@, *c) == Err::<ConstraintState, ImageConstraintError>(e),
        },
{
    let k = graph.get_create_usage(c.image);
    let mut cur = match st[k.0] {
        Some(x) => x,
        None => RenderGraphImageConstraint::empty(),
    };
    if !cur.try_merge(&c.constraint) {
        return Err(ImageConstraintError::ConflictingCreate(c.image));
    }
    st.set(k.0, Some(cur));
    Ok(())
}

fn exec_fwd_modify(graph: &RenderGraphBuilder, st: &mut Vec<Option<RenderGraphImageConstraint>>, m: &RenderGraphImageModify)
    requires
        graph.wf(),
        old(st)@.len() == graph.image_usages@.len(),
        m.input.0 < graph.image_usages@.len(),
        m.output.0 < graph.image_usages@.len(),
    ensures
        final(st)@ == fwd_modify(*graph, old(st)@, *m),
{
    let ki = graph.get_create_usage(m.input);
    let input_state = entry_or_default(st, ki.0);
    let mut merged = m.constraint;
    merged.partial_merge(&input_state);
    let ko = graph.get_create_usage(m.output);
    let mut output_state = match st[ko.0] {
        Some(x) => x,
        None => RenderGraphImageConstraint::empty(),
    };
    output_state.partial_merge(&merged);
    st.set(ko.0, Some(output_state));
}

fn exec_bwd_read(graph: &RenderGraphBuilder, st: &mut Vec<Option<RenderGraphImageConstraint>>, r: &RenderGraphImageRead) -> (res: Result<(), ImageConstraintError>)
    requires
        graph.wf(),
        old(st)@.len() == graph.image_usages@.len(),
        r.image.0 < graph.image_usages@.len(),
    ensures
        final(st)@.len() == old(st)@.len(),
        match res {
            Ok(_) => bwd_read(*graph, old(st)@, *r) == Ok::<ConstraintState, ImageConstraintError>(final(st)@),
            Err(e) => bwd_read(*graph, old(st)@, *r) == Err::<ConstraintState, ImageConstraintError>(e),
        },
{
    let k = graph.get_create_usage(r.image);
    let mut version_state = match st[k.0] {
        Some(x) => x,
        None => RenderGraphImageConstraint::empty(),
    };
    version_state.partial_merge(&r.constraint);
    st.set(k.0, Some(version_state));
    let mut read_constraint = r.constraint;
    read_constraint.partial_merge(&version_state);
    match read_constraint.try_convert_to_specification() {
        Some(spec) => {
            st.set(r.image.0, Some(RenderGraphImageConstraint::from_specification(&spec)));
            Ok(())
        },
        None => Err(ImageConstraintError::UnderdeterminedRead(r.image)),
    }
}

fn exec_bwd_modify(graph: &RenderGraphBuilder, st: &mut Vec<Option<RenderGraphImageConstraint>>, m: &RenderGraphImageModify)
    requires
        graph.wf(),
        old(st)@.len() == graph.image_usages@.len(),
        m.input.0 < graph.image_usages@.len(),
        m.output.0 < graph.image_usages@.len(),
    ensures
        final(st)@ == bwd_modify(*graph, old(st)@, *m),
{
    let ko = graph.get_create_usage(m.output);
    let output_constraint = entry_or_default(st, ko.0);
    let ki = graph.get_create_usage(m.input);
    let mut input_state = match st[ki.0] {
        Some(x) => x,
        None => RenderGraphImageConstraint::empty(),
    };
    input_state.partial_merge(&output_constraint);
    st.set(ki.0, Some(input_state));
    st.set(m.input.0, Some(output_constraint));
}

#[verifier::loop_isolation(false)]
fn exec_fwd_node(graph: &RenderGraphBuilder, st: &mut Vec<Option<RenderGraphImageConstraint>>, id: RenderGraphNodeId) -> (r: Result<(), ImageConstraintError>)
    requires
        graph.wf(),
        old(st)@.len() == graph.image_usages@.len(),
        id.0 < graph.nodes@.len(),
    ensures
        final(st)@.len() == old(st)@.len(),
        match r {
            Ok(_) => fwd_node(*graph, old(st)@, id) == Ok::<ConstraintState, ImageConstraintError>(final(st)@),
            Err(e) => fwd_node(*graph, old(st)@, id) == Err::<ConstraintState, ImageConstraintError>(e),
        },
{
    let node = graph.node(id);
    let ghost st0 = st@;
    proof {
        assert(node.usages_below(graph.image_usages@.len()));
    }
    let nc = node.image_creates.len();
    for i in 0..nc
        invariant
            graph.wf(),
            node == graph.spec_node(id),
            node.usages_below(graph.image_usages@.len()),
            nc == node.image_creates@.len(),
            st@.len() == graph.image_usages@.len(),
            fwd_creates(*graph, st0, node.image_creates@, i as nat) == Ok::<ConstraintState, ImageConstraintError>(st@),
    {
        let ghost before = st@;
        match exec_fwd_create(graph, st, &node.image_creates[i]) {
            Ok(_) => {},
            Err(e) => {
                proof {
                    assert(fwd_creates(*graph, st0, node.image_creates@, (i + 1) as nat) == fwd_create(*graph, before, node.image_creates@[i as int]));
                    lemma_fwd_creates_stays_err(*graph, st0, node.image_creates@, (i + 1) as nat, nc as nat, e);
                }
                return Err(e);
            },
        }
    }
    let ghost st1 = st@;
    let nm = node.image_modifies.len();
    for i in 0..nm
        invariant
            graph.wf(),
            node == graph.spec_node(id),
            node.usages_below(graph.image_usages@.len()),
            nm == node.image_modifies@.len(),
            st@.len() == graph.image_usages@.len(),
            fwd_modifies(*graph, st1, node.image_modifies@, i as nat) == st@,
    {
        exec_fwd_modify(graph, st, &node.image_modifies[i]);
    }
    Ok(())
}

proof fn lemma_fwd_creates_stays_err(g: RenderGraphBuilder, st: ConstraintState, cs: Seq<RenderGraphImageCreate>, i: nat, n: nat, e: ImageConstraintError)
    requires
        i <= n,
        fwd_creates(g, st, cs, i) == Err::<ConstraintState, ImageConstraintError>(e),
    ensures
        fwd_creates(g, st, cs, n) == Err::<ConstraintState, ImageConstraintError>(e),
    decreases n - i,
{
    if i < n {
        lemma_fwd_creates_stays_err(g, st, cs, i, (n - 1) as nat, e);
    }
}

proof fn lemma_bwd_reads_stays_err(g: RenderGraphBuilder, st: ConstraintState, rs: Seq<RenderGraphImageRead>, i: nat, n: nat, e: ImageConstraintError)
    requires
        i <= n,
        bwd_reads(g, st, rs, i) == Err::<ConstraintState, ImageConstraintError>(e),
    ensures
        bwd_reads(g, st, rs, n) == Err::<ConstraintState, ImageConstraintError>(e),
    decreases n - i,
{
    if i < n {
        lemma_bwd_reads_stays_err(g, st, rs, i, (n - 1) as nat, e);
    }
}

proof fn lemma_fwd_nodes_stays_err(g: RenderGraphBuilder, st: ConstraintState, o: Seq<RenderGraphNodeId>, i: nat, n: nat, e: ImageConstraintError)
    requires
        i <= n,
        fwd_nodes(g, st, o, i) == Err::<ConstraintState, ImageConstraintError>(e),
    ensures
        fwd_nodes(g, st, o, n) == Err::<ConstraintState, ImageConstraintError>(e),
    decreases n - i,
{
    if i < n {
        lemma_fwd_nodes_stays_err(g, st, o, i, (n - 1) as nat, e);
    }
}

proof fn lemma_bwd_nodes_stays_err(g: RenderGraphBuilder, st: ConstraintState, o: Seq<RenderGraphNodeId>, i: nat, n: nat, e: ImageConstraintError)
    requires
        i <= n,
        bwd_nodes(g, st, o, i) == Err::<ConstraintState, ImageConstraintError>(e),
    ensures
        bwd_nodes(g, st, o, n) == Err::<ConstraintState, ImageConstraintError>(e),
    decreases n - i,
{
    if i < n {
        lemma_bwd_nodes_stays_err(g, st, o, i, (n - 1) as nat, e);
    }
}

proof fn lemma_to_specifications_stays_err(st: ConstraintState, i: nat, n: nat, e: ImageConstraintError)
    requires
        i <= n,
        to_specifications(st, i) == Err::<Seq<Option<RenderGraphImageSpecification>>, ImageConstraintError>(e),
    ensures
        to_specifications(st, n) == Err::<Seq<Option<RenderGraphImageSpecification>>, ImageConstraintError>(e),
    decreases n - i,
{
    if i < n {
        lemma_to_specifications_stays_err(st, i, (n - 1) as nat, e);
    }
}

#[verifier::loop_isolation(false)]
fn exec_bwd_node(graph: &RenderGraphBuilder, st: &mut Vec<Option<RenderGraphImageConstraint>>, id: RenderGraphNodeId) -> (r: Result<(), ImageConstraintError>)
    requires
        graph.wf(),
        old(st)@.len() == graph.image_usages@.len(),
        id.0 < graph.nodes@.len(),
    ensures
        final(st)@.len() == old(st)@.len(),
        match r {
            Ok(_) => bwd_node(*graph, old(st)@, id) == Ok::<ConstraintState, ImageConstraintError>(final(st)@),
            Err(e) => bwd_node(*graph, old(st)@, id) == Err::<ConstraintState, ImageConstraintError>(e),
        },
{
    let node = graph.node(id);
    let ghost st0 = st@;
    proof {
        assert(node.usages_below(graph.image_usages@.len()));
    }
    let nr = node.image_reads.len();
    for i in 0..nr
        invariant
            graph.wf(),
            node == graph.spec_node(id),
            node.usages_below(graph.image_usages@.len()),
            nr == node.image_reads@.len(),
            st@.len() == graph.image_usages@.len(),
            bwd_reads(*graph, st0, node.image_reads@, i as nat) == Ok::<ConstraintState, ImageConstraintError>(st@),
    {
        let ghost before = st@;
        match exec_bwd_read(graph, st, &node.image_reads[i]) {
            Ok(_) => {},
            Err(e) => {
                proof {
                    assert(bwd_reads(*graph, st0, node.image_reads@, (i + 1) as nat) == bwd_read(*graph, before, node.image_reads@[i as int]));
                    lemma_bwd_reads_stays_err(*graph, st0, node.image_reads@, (i + 1) as nat, nr as nat, e);
                }
                return Err(e);
            },
        }
    }
    let ghost st1 = st@;
    let nm = node.image_modifies.len();
    for i in 0..nm
        invariant
            graph.wf(),
            node == graph.spec_node(id),
            node.usages_below(graph.image_usages@.len()),
            nm == node.image_modifies@.len(),
            st@.len() == graph.image_usages@.len(),
            bwd_modifies(*graph, st1, node.image_modifies@, i as nat) == st@,
    {
        exec_bwd_modify(graph, st, &node.image_modifies[i]);
    }
    Ok(())
}

#[verifier::loop_isolation(false)]
fn run_forward(graph: &RenderGraphBuilder, order: &Vec<RenderGraphNodeId>, st: &mut Vec<Option<RenderGraphImageConstraint>>) -> (r: Result<(), ImageConstraintError>)
    requires
        graph.wf(),
        forall|k: int| 0 <= k < order@.len() ==> (#[trigger] order@[k]).0 < graph.nodes@.len(),
        old(st)@.len() == graph.image_usages@.len(),
    ensures
        final(st)@.len() == old(st)@.len(),
        match r {
            Ok(_) => fwd_nodes(*graph, old(st)@, order@, order@.len()) == Ok::<ConstraintState, ImageConstraintError>(final(st)@),
            Err(e) => fwd_nodes(*graph, old(st)@, order@, order@.len()) == Err::<ConstraintState, ImageConstraintError>(e),
        },
{
    let ghost st1 = st@;
    let n = order.len();
    for i in 0..n
        invariant
            graph.wf(),
            n == order@.len(),
            forall|k: int| 0 <= k < order@.len() ==> (#[trigger] order@[k]).0 < graph.nodes@.len(),
            st@.len() == graph.image_usages@.len(),
            fwd_nodes(*graph, st1, order@, i as nat) == Ok::<ConstraintState, ImageConstraintError>(st@),
    {
        let ghost before = st@;
        match exec_fwd_node(graph, st, order[i]) {
            Ok(_) => {},
            Err(e) => {
                proof {
                    assert(fwd_nodes(*graph, st1, order@, (i + 1) as nat) == fwd_node(*graph, before, order@[i as int]));
                    lemma_fwd_nodes_stays_err(*graph, st1, order@, (i + 1) as nat, n as nat, e);
                }
                return Err(e);
            },
        }
    }
    Ok(())
}

#[verifier::loop_isolation(false)]
fn run_backward(graph: &RenderGraphBuilder, order: &Vec<RenderGraphNodeId>, st: &mut Vec<Option<RenderGraphImageConstraint>>) -> (r: Result<(), ImageConstraintError>)
    requires
        graph.wf(),
        forall|k: int| 0 <= k < order@.len() ==> (#[trigger] order@[k]).0 < graph.nodes@.len(),
        old(st)@.len() == graph.image_usages@.len(),
    ensures
        final(st)@.len() == old(st)@.len(),
        match r {
            Ok(_) => bwd_nodes(*graph, old(st)@, order@, order@.len()) == Ok::<ConstraintState, ImageConstraintError>(final(st)@),
            Err(e) => bwd_nodes(*graph, old(st)@, order@, order@.len()) == Err::<ConstraintState, ImageConstraintError>(e),
        },
{
    let ghost st3 = st@;
    let n = order.len();
    for i in 0..n
        invariant
            graph.wf(),
            n == order@.len(),
            forall|k: int| 0 <= k < order@.len() ==> (#[trigger] order@[k]).0 < graph.nodes@.len(),
            st@.len() == graph.image_usages@.len(),
            bwd_nodes(*graph, st3, order@, i as nat) == Ok::<ConstraintState, ImageConstraintError>(st@),
    {
        let ghost before = st@;
        match exec_bwd_node(graph, st, order[n - 1 - i]) {
            Ok(_) => {},
            Err(e) => {
                proof {
                    assert(bwd_nodes(*graph, st3, order@, (i + 1) as nat) == bwd_node(*graph, before, order@[n - (i + 1)]));
                    lemma_bwd_nodes_stays_err(*graph, st3, order@, (i + 1) as nat, n as nat, e);
                }
                return Err(e);
            },
        }
    }
    Ok(())
}

fn convert_to_specifications(st: &Vec<Option<RenderGraphImageConstraint>>) -> (r: Result<Vec<Option<RenderGraphImageSpecification>>, ImageConstraintError>)
    ensures
        match r {
            Ok(images) => to_specifications(st@, st@.len()) == Ok::<Seq<Option<RenderGraphImageSpecification>>, ImageConstraintError>(images@),
            Err(e) => to_specifications(st@, st@.len()) == Err::<Seq<Option<RenderGraphImageSpecification>>, ImageConstraintError>(e),
        },
        r is Ok ==> r->Ok_0@.len() == st@.len(),
{
    let nu = st.len();
    let mut images: Vec<Option<RenderGraphImageSpecification>> = Vec::new();
    for i in 0..nu
        invariant
            nu == st@.len(),
            to_specifications(st@, i as nat) == Ok::<Seq<Option<RenderGraphImageSpecification>>, ImageConstraintError>(images@),
            images@.len() == i,
    {
        match st[i] {
            Some(c) => match c.try_convert_to_specification() {
                Some(s) => images.push(Some(s)),
                None => {
                    proof {
                        lemma_to_specifications_stays_err(st@, (i + 1) as nat, nu as nat, ImageConstraintError::UnderdeterminedImage(RenderGraphImageUsageId(i)));
                    }
                    return Err(ImageConstraintError::UnderdeterminedImage(RenderGraphImageUsageId(i)));
                },
            },
            None => images.push(None),
        }
    }
    Ok(images)
}

/// Determines the specification of every image usage of the scheduled nodes, by propagating
/// the constraints of inputs and creates forward through `node_execution_order`, then the
/// constraints of outputs and reads backward. The graph must not be one where planning has to
/// give up: contradicting constraints on a created image, or too little known (no format)
/// about an image that is read or written.
pub fn determine_image_constraints(
    graph: &RenderGraphBuilder,
    node_execution_order: &Vec<RenderGraphNodeId>,
) -> (r: DetermineImageConstraintsResult)
    requires
        graph.wf(),
        forall|k: int| 0 <= k < node_execution_order@.len() ==> (#[trigger] node_execution_order@[k]).0 < graph.nodes@.len(),
        spec_determine_image_constraints(*graph, node_execution_order@) is Ok,
    ensures
        spec_determine_image_constraints(*graph, node_execution_order@)
            == Ok::<Seq<Option<RenderGraphImageSpecification>>, ImageConstraintError>(r.images@),
        r.images@.len() == graph.image_usages@.len(),
{
    match constraints_or_error(graph, node_execution_order) {
        Ok(res) => res,
        Err(_) => {
            proof {
                assert(false);
            }
            DetermineImageConstraintsResult { images: Vec::new() }
        },
    }
}

/// The specification of every image usage, or why none can be determined.
fn constraints_or_error(
    graph: &RenderGraphBuilder,
    node_execution_order: &Vec<RenderGraphNodeId>,
) -> (r: Result<DetermineImageConstraintsResult, ImageConstraintError>)
    requires
        graph.wf(),
        forall|k: int| 0 <= k < node_execution_order@.len() ==> (#[trigger] node_execution_order@[k]).0 < graph.nodes@.len(),
    ensures
        match r {
            Ok(res) => spec_determine_image_constraints(*graph, node_execution_order@) == Ok::<Seq<Option<RenderGraphImageSpecification>>, ImageConstraintError>(res.images@),
            Err(e) => spec_determine_image_constraints(*graph, node_execution_order@) == Err::<Seq<Option<RenderGraphImageSpecification>>, ImageConstraintError>(e),
        },
        r is Ok ==> r->Ok_0.images@.len() == graph.image_usages@.len(),
{
    let nu = graph.image_usages.len();
    let mut st: Vec<Option<RenderGraphImageConstraint>> = Vec::new();
    for i in 0..nu
        invariant
            st@.len() == i,
            forall|k: int| 0 <= k < i ==> st@[k] is None,
    {
        st.push(None);
    }
    let ghost st0 = st@;
    proof {
        assert(st0 == Seq::new(graph.image_usages@.len(), |i: int| None::<RenderGraphImageConstraint>));
    }

    // Input images are fully specified
    let ni = graph.input_images.len();
    for i in 0..ni
        invariant
            graph.wf(),
            ni == graph.input_images@.len(),
            st@.len() == graph.image_usages@.len(),
            fwd_inputs(*graph, st0, i as nat) == st@,
    {
        let input = &graph.input_images[i];
        let k = graph.get_create_usage(input.usage);
        st.set(k.0, Some(RenderGraphImageConstraint::from_specification(&input.specification)));
    }

    // Forward through the nodes
    run_forward(graph, node_execution_order, &mut st)?;
    let ghost st2 = st@;

    // Output images are fully specified
    let no = graph.output_images.len();
    for i in 0..no
        invariant
            graph.wf(),
            no == graph.output_images@.len(),
            st@.len() == graph.image_usages@.len(),
            fwd_outputs(*graph, st2, i as nat) == st@,
    {
        let out = &graph.output_images[i];
        let k = graph.get_create_usage(out.usage);
        let c = RenderGraphImageConstraint::from_specification(&out.specification);
        let mut state = match st[k.0] {
            Some(x) => x,
            None => RenderGraphImageConstraint::empty(),
        };
        state.partial_merge(&c);
        st.set(k.0, Some(state));
        st.set(out.usage.0, Some(c));
    }

    // Backward through the nodes
    run_backward(graph, node_execution_order, &mut st)?;

    // Everything known must describe a complete image
    let images = convert_to_specifications(&st)?;
    Ok(DetermineImageConstraintsResult { images })
}


/// Usage `k` holds a constraint with every flag of `c`.
pub open spec fn holds_flags(st: ConstraintState, k: int, c: RenderGraphImageConstraint) -> bool {
    &&& 0 <= k < st.len()
    &&& st[k] is Some
    &&& (st[k]->0).spec_has_flags_of(c)
}

/// No read and no modify of any node uses usage `k` as the usage it reads through, so the
/// backward pass only ever merges into `k` (as it is a create usage, not a reading one).
pub open spec fn only_created_at(g: RenderGraphBuilder, k: int) -> bool {
    &&& forall|n: int, i: int| 0 <= n < g.nodes@.len() && 0 <= i < g.nodes@[n].image_reads@.len()
        ==> (#[trigger] g.nodes@[n].image_reads@[i]).image.0 != k
    &&& forall|n: int, i: int| 0 <= n < g.nodes@.len() && 0 <= i < g.nodes@[n].image_modifies@.len()
        ==> (#[trigger] g.nodes@[n].image_modifies@[i]).input.0 != k
}

proof fn lemma_create_usage_in_range(g: RenderGraphBuilder, u: RenderGraphImageUsageId)
    requires
        g.wf(),
        u.0 < g.image_usages@.len(),
    ensures
        0 <= create_usage_of(g, u) < g.image_usages@.len(),
{
    g.lemma_usage_wf(u);
}

proof fn lemma_bwd_reads_keep(
    g: RenderGraphBuilder,
    st: ConstraintState,
    id: RenderGraphNodeId,
    i: nat,
    n: nat,
    k: int,
    c: RenderGraphImageConstraint,
)
    requires
        g.wf(),
        id.0 < g.nodes@.len(),
        st.len() == g.image_usages@.len(),
        only_created_at(g, k),
        i <= n <= g.spec_node(id).image_reads@.len(),
        bwd_reads(g, st, g.spec_node(id).image_reads@, i) is Ok,
        holds_flags(bwd_reads(g, st, g.spec_node(id).image_reads@, i)->Ok_0, k, c),
        bwd_reads(g, st, g.spec_node(id).image_reads@, i)->Ok_0.len() == st.len(),
        bwd_reads(g, st, g.spec_node(id).image_reads@, n) is Ok,
    ensures
        holds_flags(bwd_reads(g, st, g.spec_node(id).image_reads@, n)->Ok_0, k, c),
        bwd_reads(g, st, g.spec_node(id).image_reads@, n)->Ok_0.len() == st.len(),
    decreases n,
{
    let rs = g.spec_node(id).image_reads@;
    if n > i {
        if bwd_reads(g, st, rs, (n - 1) as nat) is Err {
            assert(bwd_reads(g, st, rs, n) is Err);
        }
        lemma_bwd_reads_keep(g, st, id, i, (n - 1) as nat, k, c);
        let prev = bwd_reads(g, st, rs, (n - 1) as nat)->Ok_0;
        let r = rs[n - 1];
        assert(g.nodes@[id.0 as int].usages_below(g.image_usages@.len()));
        assert(g.nodes@[id.0 as int].image_reads@[n - 1].image.0 != k);
        lemma_create_usage_in_range(g, r.image);
        lemma_read_flows_back(g, prev, r);
        let next = bwd_read(g, prev, r)->Ok_0;
        if create_usage_of(g, r.image) == k {
            lemma_constraint_has_flags_order(next[k]->0, entry(prev, k), c);
        }
    }
}

proof fn lemma_bwd_modifies_keep(
    g: RenderGraphBuilder,
    st: ConstraintState,
    id: RenderGraphNodeId,
    n: nat,
    k: int,
    c: RenderGraphImageConstraint,
)
    requires
        g.wf(),
        id.0 < g.nodes@.len(),
        st.len() == g.image_usages@.len(),
        only_created_at(g, k),
        n <= g.spec_node(id).image_modifies@.len(),
        holds_flags(st, k, c),
    ensures
        holds_flags(bwd_modifies(g, st, g.spec_node(id).image_modifies@, n), k, c),
        bwd_modifies(g, st, g.spec_node(id).image_modifies@, n).len() == st.len(),
    decreases n,
{
    let ms = g.spec_node(id).image_modifies@;
    if n > 0 {
        lemma_bwd_modifies_keep(g, st, id, (n - 1) as nat, k, c);
        let prev = bwd_modifies(g, st, ms, (n - 1) as nat);
        let m = ms[n - 1];
        assert(g.nodes@[id.0 as int].usages_below(g.image_usages@.len()));
        assert(g.nodes@[id.0 as int].image_modifies@[n - 1].input.0 != k);
        lemma_create_usage_in_range(g, m.input);
        lemma_create_usage_in_range(g, m.output);
        lemma_modify_flows_back(g, prev, m);
        let next = bwd_modify(g, prev, m);
        let ki = create_usage_of(g, m.input);
        let ko = create_usage_of(g, m.output);
        if ki == k {
            lemma_constraint_has_flags_order(next[k]->0, entry(prev, k), c);
        } else if ko == k {
            assert(next[k] == Some(entry(prev, ko)));
        }
    }
}

proof fn lemma_bwd_node_keeps(g: RenderGraphBuilder, st: ConstraintState, id: RenderGraphNodeId, k: int, c: RenderGraphImageConstraint)
    requires
        g.wf(),
        id.0 < g.nodes@.len(),
        st.len() == g.image_usages@.len(),
        only_created_at(g, k),
        holds_flags(st, k, c),
        bwd_node(g, st, id) is Ok,
    ensures
        holds_flags(bwd_node(g, st, id)->Ok_0, k, c),
        bwd_node(g, st, id)->Ok_0.len() == st.len(),
{
    let node = g.spec_node(id);
    lemma_bwd_reads_keep(g, st, id, 0, node.image_reads@.len(), k, c);
    let s1 = bwd_reads(g, st, node.image_reads@, node.image_reads@.len())->Ok_0;
    lemma_bwd_modifies_keep(g, s1, id, node.image_modifies@.len(), k, c);
}

proof fn lemma_bwd_nodes_keep(
    g: RenderGraphBuilder,
    st: ConstraintState,
    order: Seq<RenderGraphNodeId>,
    m: nat,
    n: nat,
    k: int,
    c: RenderGraphImageConstraint,
)
    requires
        g.wf(),
        forall|j: int| 0 <= j < order.len() ==> (#[trigger] order[j]).0 < g.nodes@.len(),
        st.len() == g.image_usages@.len(),
        only_created_at(g, k),
        m <= n <= order.len(),
        bwd_nodes(g, st, order, m) is Ok,
        holds_flags(bwd_nodes(g, st, order, m)->Ok_0, k, c),
        bwd_nodes(g, st, order, m)->Ok_0.len() == st.len(),
        bwd_nodes(g, st, order, n) is Ok,
    ensures
        holds_flags(bwd_nodes(g, st, order, n)->Ok_0, k, c),
        bwd_nodes(g, st, order, n)->Ok_0.len() == st.len(),
    decreases n,
{
    if n > m {
        if bwd_nodes(g, st, order, (n - 1) as nat) is Err {
            assert(bwd_nodes(g, st, order, n) is Err);
        }
        lemma_bwd_nodes_keep(g, st, order, m, (n - 1) as nat, k, c);
        let prev = bwd_nodes(g, st, order, (n - 1) as nat)->Ok_0;
        lemma_bwd_node_keeps(g, prev, order[order.len() - n], k, c);
    }
}

proof fn lemma_bwd_nodes_ok_prefix(g: RenderGraphBuilder, st: ConstraintState, order: Seq<RenderGraphNodeId>, m: nat, n: nat)
    requires
        m <= n,
        bwd_nodes(g, st, order, n) is Ok,
    ensures
        bwd_nodes(g, st, order, m) is Ok,
    decreases n,
{
    if n > m {
        if bwd_nodes(g, st, order, (n - 1) as nat) is Err {
            assert(bwd_nodes(g, st, order, n) is Err);
        }
        lemma_bwd_nodes_ok_prefix(g, st, order, m, (n - 1) as nat);
    }
}

proof fn lemma_bwd_reads_ok_prefix(g: RenderGraphBuilder, st: ConstraintState, rs: Seq<RenderGraphImageRead>, m: nat, n: nat)
    requires
        m <= n,
        bwd_reads(g, st, rs, n) is Ok,
    ensures
        bwd_reads(g, st, rs, m) is Ok,
    decreases n,
{
    if n > m {
        if bwd_reads(g, st, rs, (n - 1) as nat) is Err {
            assert(bwd_reads(g, st, rs, n) is Err);
        }
        lemma_bwd_reads_ok_prefix(g, st, rs, m, (n - 1) as nat);
    }
}

proof fn lemma_bwd_nodes_len(g: RenderGraphBuilder, st: ConstraintState, order: Seq<RenderGraphNodeId>, n: nat)
    requires
        g.wf(),
        forall|j: int| 0 <= j < order.len() ==> (#[trigger] order[j]).0 < g.nodes@.len(),
        st.len() == g.image_usages@.len(),
        n <= order.len(),
        bwd_nodes(g, st, order, n) is Ok,
    ensures
        bwd_nodes(g, st, order, n)->Ok_0.len() == st.len(),
    decreases n,
{
    if n > 0 {
        lemma_bwd_nodes_ok_prefix(g, st, order, (n - 1) as nat, n);
        lemma_bwd_nodes_len(g, st, order, (n - 1) as nat);
        let prev = bwd_nodes(g, st, order, (n - 1) as nat)->Ok_0;
        let id = order[order.len() - n];
        let node = g.spec_node(id);
        lemma_bwd_reads_len(g, prev, id, node.image_reads@.len());
        let s1 = bwd_reads(g, prev, node.image_reads@, node.image_reads@.len())->Ok_0;
        lemma_bwd_modifies_len(g, s1, id, node.image_modifies@.len());
    }
}

proof fn lemma_bwd_reads_len(g: RenderGraphBuilder, st: ConstraintState, id: RenderGraphNodeId, n: nat)
    requires
        g.wf(),
        id.0 < g.nodes@.len(),
        st.len() == g.image_usages@.len(),
        n <= g.spec_node(id).image_reads@.len(),
    ensures
        bwd_reads(g, st, g.spec_node(id).image_reads@, n) is Ok ==> bwd_reads(g, st, g.spec_node(id).image_reads@, n)->Ok_0.len() == st.len(),
    decreases n,
{
    let rs = g.spec_node(id).image_reads@;
    if n > 0 && bwd_reads(g, st, rs, n) is Ok {
        lemma_bwd_reads_ok_prefix(g, st, rs, (n - 1) as nat, n);
        lemma_bwd_reads_len(g, st, id, (n - 1) as nat);
        let prev = bwd_reads(g, st, rs, (n - 1) as nat)->Ok_0;
        assert(g.nodes@[id.0 as int].usages_below(g.image_usages@.len()));
        let r = rs[n - 1];
        assert(r.image.0 < g.image_usages@.len());
        lemma_create_usage_in_range(g, r.image);
        lemma_read_flows_back(g, prev, r);
    }
}

proof fn lemma_bwd_modifies_len(g: RenderGraphBuilder, st: ConstraintState, id: RenderGraphNodeId, n: nat)
    requires
        g.wf(),
        id.0 < g.nodes@.len(),
        st.len() == g.image_usages@.len(),
        n <= g.spec_node(id).image_modifies@.len(),
    ensures
        bwd_modifies(g, st, g.spec_node(id).image_modifies@, n).len() == st.len(),
    decreases n,
{
    let ms = g.spec_node(id).image_modifies@;
    if n > 0 {
        lemma_bwd_modifies_len(g, st, id, (n - 1) as nat);
        let prev = bwd_modifies(g, st, ms, (n - 1) as nat);
        assert(g.nodes@[id.0 as int].usages_below(g.image_usages@.len()));
        let m = ms[n - 1];
        lemma_create_usage_in_range(g, m.input);
        lemma_create_usage_in_range(g, m.output);
        lemma_modify_flows_back(g, prev, m);
    }
}

/// The backward pass carries each read's constraint into the version it reads: once it has
/// run through every scheduled node, the create usage of the version read by read `ri` of the
/// `x`-th scheduled node has every aspect, usage and create flag of that read's constraint,
/// where no read or modify reads through that create usage.
pub proof fn lemma_read_constraint_reaches_version(
    g: RenderGraphBuilder,
    st: ConstraintState,
    order: Seq<RenderGraphNodeId>,
    x: int,
    ri: int,
)
    requires
        g.wf(),
        forall|j: int| 0 <= j < order.len() ==> (#[trigger] order[j]).0 < g.nodes@.len(),
        st.len() == g.image_usages@.len(),
        0 <= x < order.len(),
        0 <= ri < g.spec_node(order[x]).image_reads@.len(),
        only_created_at(g, create_usage_of(g, g.spec_node(order[x]).image_reads@[ri].image)),
        bwd_nodes(g, st, order, order.len()) is Ok,
    ensures
        holds_flags(
            bwd_nodes(g, st, order, order.len())->Ok_0,
            create_usage_of(g, g.spec_node(order[x]).image_reads@[ri].image),
            g.spec_node(order[x]).image_reads@[ri].constraint,
        ),
{
    let id = order[x];
    let node = g.spec_node(id);
    let r = node.image_reads@[ri];
    let k = create_usage_of(g, r.image);
    let c = r.constraint;
    let n0 = (order.len() - x) as nat;
    lemma_bwd_nodes_ok_prefix(g, st, order, n0, order.len());
    lemma_bwd_nodes_ok_prefix(g, st, order, (n0 - 1) as nat, n0);
    lemma_bwd_nodes_len(g, st, order, (n0 - 1) as nat);
    let before = bwd_nodes(g, st, order, (n0 - 1) as nat)->Ok_0;
    assert(order[order.len() - n0] == id);
    assert(bwd_node(g, before, id) is Ok);
    let rs = node.image_reads@;
    lemma_bwd_reads_ok_prefix(g, before, rs, (ri + 1) as nat, rs.len());
    lemma_bwd_reads_ok_prefix(g, before, rs, ri as nat, (ri + 1) as nat);
    lemma_bwd_reads_len(g, before, id, ri as nat);
    let s_ri = bwd_reads(g, before, rs, ri as nat)->Ok_0;
    assert(g.nodes@[id.0 as int].usages_below(g.image_usages@.len()));
    lemma_create_usage_in_range(g, r.image);
    lemma_read_flows_back(g, s_ri, r);
    lemma_bwd_reads_keep(g, before, id, (ri + 1) as nat, rs.len(), k, c);
    let s1 = bwd_reads(g, before, rs, rs.len())->Ok_0;
    lemma_bwd_modifies_keep(g, s1, id, node.image_modifies@.len(), k, c);
    lemma_bwd_nodes_keep(g, st, order, n0, order.len(), k, c);
}

proof fn lemma_fwd_inputs_len(g: RenderGraphBuilder, st: ConstraintState, n: nat)
    requires
        g.wf(),
        st.len() == g.image_usages@.len(),
        n <= g.input_images@.len(),
    ensures
        fwd_inputs(g, st, n).len() == st.len(),
    decreases n,
{
    if n > 0 {
        lemma_fwd_inputs_len(g, st, (n - 1) as nat);
        lemma_create_usage_in_range(g, g.input_images@[n - 1].usage);
    }
}

proof fn lemma_fwd_outputs_len(g: RenderGraphBuilder, st: ConstraintState, n: nat)
    requires
        g.wf(),
        st.len() == g.image_usages@.len(),
        n <= g.output_images@.len(),
    ensures
        fwd_outputs(g, st, n).len() == st.len(),
    decreases n,
{
    if n > 0 {
        lemma_fwd_outputs_len(g, st, (n - 1) as nat);
        lemma_create_usage_in_range(g, g.output_images@[n - 1].usage);
    }
}

proof fn lemma_fwd_creates_len(g: RenderGraphBuilder, st: ConstraintState, id: RenderGraphNodeId, n: nat)
    requires
        g.wf(),
        id.0 < g.nodes@.len(),
        st.len() == g.image_usages@.len(),
        n <= g.spec_node(id).image_creates@.len(),
    ensures
        fwd_creates(g, st, g.spec_node(id).image_creates@, n) is Ok ==> fwd_creates(g, st, g.spec_node(id).image_creates@, n)->Ok_0.len() == st.len(),
    decreases n,
{
    let cs = g.spec_node(id).image_creates@;
    if n > 0 {
        lemma_fwd_creates_len(g, st, id, (n - 1) as nat);
        assert(g.nodes@[id.0 as int].usages_below(g.image_usages@.len()));
        lemma_create_usage_in_range(g, cs[n - 1].image);
    }
}

proof fn lemma_fwd_modifies_len(g: RenderGraphBuilder, st: ConstraintState, id: RenderGraphNodeId, n: nat)
    requires
        g.wf(),
        id.0 < g.nodes@.len(),
        st.len() == g.image_usages@.len(),
        n <= g.spec_node(id).image_modifies@.len(),
    ensures
        fwd_modifies(g, st, g.spec_node(id).image_modifies@, n).len() == st.len(),
    decreases n,
{
    let ms = g.spec_node(id).image_modifies@;
    if n > 0 {
        lemma_fwd_modifies_len(g, st, id, (n - 1) as nat);
        assert(g.nodes@[id.0 as int].usages_below(g.image_usages@.len()));
        lemma_create_usage_in_range(g, ms[n - 1].input);
        lemma_create_usage_in_range(g, ms[n - 1].output);
        lemma_modify_carries_forward(g, fwd_modifies(g, st, ms, (n - 1) as nat), ms[n - 1]);
    }
}

proof fn lemma_fwd_nodes_len(g: RenderGraphBuilder, st: ConstraintState, order: Seq<RenderGraphNodeId>, n: nat)
    requires
        g.wf(),
        forall|j: int| 0 <= j < order.len() ==> (#[trigger] order[j]).0 < g.nodes@.len(),
        st.len() == g.image_usages@.len(),
        n <= order.len(),
    ensures
        fwd_nodes(g, st, order, n) is Ok ==> fwd_nodes(g, st, order, n)->Ok_0.len() == st.len(),
    decreases n,
{
    if n > 0 && fwd_nodes(g, st, order, n) is Ok {
        lemma_fwd_nodes_len(g, st, order, (n - 1) as nat);
        let prev = fwd_nodes(g, st, order, (n - 1) as nat)->Ok_0;
        let id = order[n - 1];
        let node = g.spec_node(id);
        lemma_fwd_creates_len(g, prev, id, node.image_creates@.len());
        let s1 = fwd_creates(g, prev, node.image_creates@, node.image_creates@.len())->Ok_0;
        lemma_fwd_modifies_len(g, s1, id, node.image_modifies@.len());
    }
}

proof fn lemma_to_specifications_at(st: ConstraintState, n: nat, j: int)
    requires
        n <= st.len(),
        0 <= j < n,
        to_specifications(st, n) is Ok,
    ensures
        to_specifications(st, n)->Ok_0.len() == n,
        st[j] is Some ==> to_specifications(st, n)->Ok_0[j] == (st[j]->0).spec_to_specification(),
        st[j] is Some ==> (st[j]->0).spec_to_specification() is Some,
    decreases n,
{
    if to_specifications(st, (n - 1) as nat) is Err {
        assert(to_specifications(st, n) is Err);
    }
    if j < n - 1 {
        lemma_to_specifications_at(st, (n - 1) as nat, j);
    } else if n > 1 {
        lemma_to_specifications_at(st, (n - 1) as nat, 0);
    }
}

/// After image constraints are determined, the specification of the version that a read of a
/// scheduled node reads has every aspect, usage and create flag of the read's constraint (the
/// read's needs are merged back into the image version it reads), where no read or modify
/// reads through that version's create usage.
pub proof fn lemma_specification_has_read_flags(
    g: RenderGraphBuilder,
    order: Seq<RenderGraphNodeId>,
    x: int,
    ri: int,
)
    requires
        g.wf(),
        forall|j: int| 0 <= j < order.len() ==> (#[trigger] order[j]).0 < g.nodes@.len(),
        0 <= x < order.len(),
        0 <= ri < g.spec_node(order[x]).image_reads@.len(),
        only_created_at(g, create_usage_of(g, g.spec_node(order[x]).image_reads@[ri].image)),
        spec_determine_image_constraints(g, order) is Ok,
    ensures
        ({
            let r = g.spec_node(order[x]).image_reads@[ri];
            let k = create_usage_of(g, r.image);
            let specs = spec_determine_image_constraints(g, order)->Ok_0;
            &&& 0 <= k < specs.len()
            &&& specs[k] is Some
            &&& flags_include((specs[k]->0).aspect_flags, r.constraint.aspect_flags)
            &&& flags_include((specs[k]->0).usage_flags, r.constraint.usage_flags)
            &&& flags_include((specs[k]->0).create_flags, r.constraint.create_flags)
        }),
{
    let r = g.spec_node(order[x]).image_reads@[ri];
    let k = create_usage_of(g, r.image);
    let st0 = Seq::new(g.image_usages@.len(), |i: int| None::<RenderGraphImageConstraint>);
    lemma_fwd_inputs_len(g, st0, g.input_images@.len());
    let st1 = fwd_inputs(g, st0, g.input_images@.len());
    lemma_fwd_nodes_len(g, st1, order, order.len());
    let st2 = fwd_nodes(g, st1, order, order.len())->Ok_0;
    lemma_fwd_outputs_len(g, st2, g.output_images@.len());
    let st3 = fwd_outputs(g, st2, g.output_images@.len());
    lemma_read_constraint_reaches_version(g, st3, order, x, ri);
    lemma_bwd_nodes_len(g, st3, order, order.len());
    let st4 = bwd_nodes(g, st3, order, order.len())->Ok_0;
    assert(spec_determine_image_constraints(g, order) == to_specifications(st4, st4.len()));
    assert(holds_flags(st4, k, r.constraint));
    lemma_to_specifications_at(st4, st4.len(), k);
    let sp = (st4[k]->0).spec_to_specification();
    assert(sp is Some);
    assert((sp->0).usage_flags == (st4[k]->0).usage_flags);
}
} // verus!
