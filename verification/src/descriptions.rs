use vstd::prelude::*;
use crate::image_spec::Extent2D;
use crate::graph::ImageSubresourceRange;

verus! {

/// The surface a swapchain presents to, as far as renderpasses and pipelines depend on it.
#[derive(Clone, Copy, Debug, PartialEq, Eq, Hash, Structural)]
pub struct SwapchainSurfaceInfo {
    pub extents: Extent2D,
    pub msaa_level: u32,
    pub surface_format: i32,
    pub surface_color_space: i32,
    pub color_format: i32,
    pub depth_format: i32,
}

/// Shader code and the hash that identifies it.
#[derive(Clone, Debug, PartialEq, Eq, Hash)]
pub struct ShaderModule {
    pub code_hash: u64,
    pub code: Vec<u8>,
}

/// A shader stage of a pipeline: the stage bit and the entry point.
#[derive(Clone, Debug, PartialEq, Eq, Hash)]
pub struct ShaderModuleMeta {
    pub stage: u32,
    pub entry_name: String,
}

/// A sampler (`VkSamplerCreateInfo`); floating-point fields are held as their bit patterns.
#[derive(Clone, Copy, Debug, PartialEq, Eq, Hash, Structural)]
pub struct Sampler {
    pub mag_filter: i32,
    pub min_filter: i32,
    pub mipmap_mode: i32,
    pub address_mode_u: i32,
    pub address_mode_v: i32,
    pub address_mode_w: i32,
    pub mip_lod_bias_bits: u32,
    pub anisotropy_enable: bool,
    pub max_anisotropy_bits: u32,
    pub compare_enable: bool,
    pub compare_op: i32,
    pub min_lod_bits: u32,
    pub max_lod_bits: u32,
    pub border_color: i32,
    pub unnormalized_coordinates: bool,
}

/// One binding of a descriptor set layout, with the samplers baked into it if any.
#[derive(Clone, Debug, PartialEq, Eq, Hash)]
pub struct DescriptorSetLayoutBinding {
    pub binding: u32,
    pub descriptor_type: i32,
    pub descriptor_count: u32,
    pub stage_flags: u32,
    pub immutable_samplers: Option<Vec<Sampler>>,
}

#[derive(Clone, Debug, PartialEq, Eq, Hash)]
pub struct DescriptorSetLayout {
    pub descriptor_set_layout_bindings: Vec<DescriptorSetLayoutBinding>,
}

#[derive(Clone, Copy, Debug, PartialEq, Eq, Hash, Structural)]
pub struct PushConstantRange {
    pub stage_flags: u32,
    pub offset: u32,
    pub size: u32,
}

#[derive(Clone, Debug, PartialEq, Eq, Hash)]
pub struct PipelineLayout {
    pub descriptor_set_layouts: Vec<DescriptorSetLayout>,
    pub push_constant_ranges: Vec<PushConstantRange>,
}

/// The fixed-function state of a graphics pipeline, encoded by the caller.
#[derive(Clone, Debug, PartialEq, Eq, Hash)]
pub struct FixedFunctionState {
    pub encoded: Vec<u8>,
}

/// The size of a framebuffer.
#[derive(Clone, Copy, Debug, PartialEq, Eq, Hash, Structural)]
pub struct FramebufferMeta {
    pub width: u32,
    pub height: u32,
    pub layers: u32,
}

/// The swizzle of each channel of an image view.
#[derive(Clone, Copy, Debug, PartialEq, Eq, Hash, Structural)]
pub struct ComponentMapping {
    pub r: i32,
    pub g: i32,
    pub b: i32,
    pub a: i32,
}

/// How an image is viewed.
#[derive(Clone, Copy, Debug, PartialEq, Eq, Hash, Structural)]
pub struct ImageViewMeta {
    pub view_type: i32,
    pub format: i32,
    pub components: ComponentMapping,
    pub subresource_range: ImageSubresourceRange,
}

/// A copy of `v`, element by element.
pub fn copy_vec<T: Copy>(v: &Vec<T>) -> (r: Vec<T>)
    ensures
        r@ == v@,
{
    let mut out: Vec<T> = Vec::new();
    let n = v.len();
    for i in 0..n
        invariant
            n == v@.len(),
            out@ == v@.take(i as int),
    {
        out.push(v[i]);
        proof {
            assert(v@.take(i + 1) =~= v@.take(i as int).push(v@[i as int]));
        }
    }
    proof {
        assert(v@.take(n as int) =~= v@);
    }
    out
}

impl DescriptorSetLayoutBinding {
    /// The two bindings hold the same values.
    pub open spec fn same_as(self, other: DescriptorSetLayoutBinding) -> bool {
        &&& self.binding == other.binding
        &&& self.descriptor_type == other.descriptor_type
        &&& self.descriptor_count == other.descriptor_count
        &&& self.stage_flags == other.stage_flags
        &&& (self.immutable_samplers is Some <==> other.immutable_samplers is Some)
        &&& self.immutable_samplers is Some ==> self.immutable_samplers->0@ == other.immutable_samplers->0@
    }

    /// A copy of the binding.
    pub fn duplicate(&self) -> (r: Self)
        ensures
            r.same_as(*self),
    {
        let immutable_samplers = match &self.immutable_samplers {
            Some(s) => Some(copy_vec(s)),
            None => None,
        };
        DescriptorSetLayoutBinding {
            binding: self.binding,
            descriptor_type: self.descriptor_type,
            descriptor_count: self.descriptor_count,
            stage_flags: self.stage_flags,
            immutable_samplers,
        }
    }
}

impl DescriptorSetLayout {
    /// The two layouts have the same bindings, in order.
    pub open spec fn same_as(self, other: DescriptorSetLayout) -> bool {
        &&& self.descriptor_set_layout_bindings@.len() == other.descriptor_set_layout_bindings@.len()
        &&& forall|i: int| 0 <= i < self.descriptor_set_layout_bindings@.len()
            ==> (#[trigger] self.descriptor_set_layout_bindings@[i]).same_as(other.descriptor_set_layout_bindings@[i])
    }

    /// Having the same bindings carries over from one layout to the next.
    pub proof fn lemma_same_as_transitive(a: DescriptorSetLayout, b: DescriptorSetLayout, c: DescriptorSetLayout)
        requires
            a.same_as(b),
            b.same_as(c),
        ensures
            a.same_as(c),
    {
        assert forall|i: int| 0 <= i < a.descriptor_set_layout_bindings@.len()
            implies (#[trigger] a.descriptor_set_layout_bindings@[i]).same_as(c.descriptor_set_layout_bindings@[i]) by {
            assert(a.descriptor_set_layout_bindings@[i].same_as(b.descriptor_set_layout_bindings@[i]));
            assert(b.descriptor_set_layout_bindings@[i].same_as(c.descriptor_set_layout_bindings@[i]));
        }
    }

    /// A copy of the layout.
    pub fn duplicate(&self) -> (r: Self)
        ensures
            r.same_as(*self),
    {
        let b = &self.descriptor_set_layout_bindings;
        let mut out: Vec<DescriptorSetLayoutBinding> = Vec::new();
        let n = b.len();
        for i in 0..n
            invariant
                n == b@.len(),
                out@.len() == i,
                forall|j: int| 0 <= j < i ==> (#[trigger] out@[j]).same_as(b@[j]),
        {
            out.push(b[i].duplicate());
        }
        DescriptorSetLayout { descriptor_set_layout_bindings: out }
    }
}

impl PipelineLayout {
    /// The two pipeline layouts have the same descriptor set layouts, in order, and the same
    /// push constant ranges.
    pub open spec fn same_as(self, other: PipelineLayout) -> bool {
        &&& self.push_constant_ranges@ == other.push_constant_ranges@
        &&& self.descriptor_set_layouts@.len() == other.descriptor_set_layouts@.len()
        &&& forall|i: int| 0 <= i < self.descriptor_set_layouts@.len()
            ==> (#[trigger] self.descriptor_set_layouts@[i]).same_as(other.descriptor_set_layouts@[i])
    }

    /// A copy of the pipeline layout.
    pub fn duplicate(&self) -> (r: Self)
        ensures
            r.same_as(*self),
    {
        let d = &self.descriptor_set_layouts;
        let mut out: Vec<DescriptorSetLayout> = Vec::new();
        let n = d.len();
        for i in 0..n
            invariant
                n == d@.len(),
                out@.len() == i,
                forall|j: int| 0 <= j < i ==> (#[trigger] out@[j]).same_as(d@[j]),
        {
            out.push(d[i].duplicate());
        }
        PipelineLayout { descriptor_set_layouts: out, push_constant_ranges: copy_vec(&self.push_constant_ranges) }
    }
}

} // verus!
