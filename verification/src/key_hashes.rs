//! The hash under which each kind of key stores its resource: what the key's derived `Hash`
//! impl writes, finished by std's `DefaultHasher`. Equal keys get equal hashes. A key struct's
//! derived impl writes its fields in order, so keys that hold descriptions are hashed field by
//! field from the descriptions given, without copying them first.

use vstd::prelude::*;
use std::collections::hash_map::DefaultHasher;
use std::hash::{Hash, Hasher};
use vstd::std_specs::hash::DefaultHasherAdditionalSpecFns;
use crate::descriptions::{
    DescriptorSetLayout, FixedFunctionState, FramebufferMeta, PipelineLayout, Sampler, ShaderModuleMeta,
    SwapchainSurfaceInfo,
};
use crate::output_passes::RenderPassDescription;
use crate::resource_lookup::ResourceHash;
use crate::resource_set::{BufferKey, ImageKey, ImageViewKey, MaterialPassKey, ShaderModuleKey};

verus! {

broadcast use vstd::std_specs::hash::group_hash_axioms;

/// What the derived `Hash::hash` of `ShaderModuleKey` writes into a hasher for `value`.
pub uninterp spec fn shader_module_key_writes(value: ShaderModuleKey) -> Seq<Seq<u8>>;

/// Feeds `value` to `hasher` through `ShaderModuleKey`'s derived `Hash::hash`; the writes it appends are
/// named `shader_module_key_writes(value)`.
#[verifier::external_body]
fn write_shader_module_key(value: &ShaderModuleKey, hasher: &mut DefaultHasher)
    ensures
        final(hasher)@ == old(hasher)@ + shader_module_key_writes(*value),
{
    value.hash(hasher);
}

/// What the derived `Hash::hash` of `Sampler` writes into a hasher for `value`.
pub uninterp spec fn sampler_writes(value: Sampler) -> Seq<Seq<u8>>;

/// Feeds `value` to `hasher` through `Sampler`'s derived `Hash::hash`; the writes it appends are
/// named `sampler_writes(value)`.
#[verifier::external_body]
fn write_sampler(value: &Sampler, hasher: &mut DefaultHasher)
    ensures
        final(hasher)@ == old(hasher)@ + sampler_writes(*value),
{
    value.hash(hasher);
}

/// What the derived `Hash::hash` of `DescriptorSetLayout` writes into a hasher for `value`.
pub uninterp spec fn descriptor_set_layout_writes(value: DescriptorSetLayout) -> Seq<Seq<u8>>;

/// Feeds `value` to `hasher` through `DescriptorSetLayout`'s derived `Hash::hash`; the writes it appends are
/// named `descriptor_set_layout_writes(value)`.
#[verifier::external_body]
fn write_descriptor_set_layout(value: &DescriptorSetLayout, hasher: &mut DefaultHasher)
    ensures
        final(hasher)@ == old(hasher)@ + descriptor_set_layout_writes(*value),
{
    value.hash(hasher);
}

/// What the derived `Hash::hash` of `PipelineLayout` writes into a hasher for `value`.
pub uninterp spec fn pipeline_layout_writes(value: PipelineLayout) -> Seq<Seq<u8>>;

/// Feeds `value` to `hasher` through `PipelineLayout`'s derived `Hash::hash`; the writes it appends are
/// named `pipeline_layout_writes(value)`.
#[verifier::external_body]
fn write_pipeline_layout(value: &PipelineLayout, hasher: &mut DefaultHasher)
    ensures
        final(hasher)@ == old(hasher)@ + pipeline_layout_writes(*value),
{
    value.hash(hasher);
}

/// What the derived `Hash::hash` of `MaterialPassKey` writes into a hasher for `value`.
pub uninterp spec fn material_pass_key_writes(value: MaterialPassKey) -> Seq<Seq<u8>>;

/// Feeds `value` to `hasher` through `MaterialPassKey`'s derived `Hash::hash`; the writes it appends are
/// named `material_pass_key_writes(value)`.
#[verifier::external_body]
fn write_material_pass_key(value: &MaterialPassKey, hasher: &mut DefaultHasher)
    ensures
        final(hasher)@ == old(hasher)@ + material_pass_key_writes(*value),
{
    value.hash(hasher);
}

/// What the derived `Hash::hash` of `ImageKey` writes into a hasher for `value`.
pub uninterp spec fn image_key_writes(value: ImageKey) -> Seq<Seq<u8>>;

/// Feeds `value` to `hasher` through `ImageKey`'s derived `Hash::hash`; the writes it appends are
/// named `image_key_writes(value)`.
#[verifier::external_body]
fn write_image_key(value: &ImageKey, hasher: &mut DefaultHasher)
    ensures
        final(hasher)@ == old(hasher)@ + image_key_writes(*value),
{
    value.hash(hasher);
}

/// What the derived `Hash::hash` of `BufferKey` writes into a hasher for `value`.
pub uninterp spec fn buffer_key_writes(value: BufferKey) -> Seq<Seq<u8>>;

/// Feeds `value` to `hasher` through `BufferKey`'s derived `Hash::hash`; the writes it appends are
/// named `buffer_key_writes(value)`.
#[verifier::external_body]
fn write_buffer_key(value: &BufferKey, hasher: &mut DefaultHasher)
    ensures
        final(hasher)@ == old(hasher)@ + buffer_key_writes(*value),
{
    value.hash(hasher);
}

/// What the derived `Hash::hash` of `ImageViewKey` writes into a hasher for `value`.
pub uninterp spec fn image_view_key_writes(value: ImageViewKey) -> Seq<Seq<u8>>;

/// Feeds `value` to `hasher` through `ImageViewKey`'s derived `Hash::hash`; the writes it appends are
/// named `image_view_key_writes(value)`.
#[verifier::external_body]
fn write_image_view_key(value: &ImageViewKey, hasher: &mut DefaultHasher)
    ensures
        final(hasher)@ == old(hasher)@ + image_view_key_writes(*value),
{
    value.hash(hasher);
}

/// What the derived `Hash::hash` of `RenderPassDescription` writes into a hasher for `value`.
pub uninterp spec fn renderpass_description_writes(value: RenderPassDescription) -> Seq<Seq<u8>>;

/// Feeds `value` to `hasher` through `RenderPassDescription`'s derived `Hash::hash`; the writes it appends are
/// named `renderpass_description_writes(value)`.
#[verifier::external_body]
fn write_renderpass_description(value: &RenderPassDescription, hasher: &mut DefaultHasher)
    ensures
        final(hasher)@ == old(hasher)@ + renderpass_description_writes(*value),
{
    value.hash(hasher);
}

/// What the derived `Hash::hash` of `SwapchainSurfaceInfo` writes into a hasher for `value`.
pub uninterp spec fn swapchain_surface_info_writes(value: SwapchainSurfaceInfo) -> Seq<Seq<u8>>;

/// Feeds `value` to `hasher` through `SwapchainSurfaceInfo`'s derived `Hash::hash`; the writes it appends are
/// named `swapchain_surface_info_writes(value)`.
#[verifier::external_body]
fn write_swapchain_surface_info(value: &SwapchainSurfaceInfo, hasher: &mut DefaultHasher)
    ensures
        final(hasher)@ == old(hasher)@ + swapchain_surface_info_writes(*value),
{
    value.hash(hasher);
}

/// What the derived `Hash::hash` of `FramebufferMeta` writes into a hasher for `value`.
pub uninterp spec fn framebuffer_meta_writes(value: FramebufferMeta) -> Seq<Seq<u8>>;

/// Feeds `value` to `hasher` through `FramebufferMeta`'s derived `Hash::hash`; the writes it appends are
/// named `framebuffer_meta_writes(value)`.
#[verifier::external_body]
fn write_framebuffer_meta(value: &FramebufferMeta, hasher: &mut DefaultHasher)
    ensures
        final(hasher)@ == old(hasher)@ + framebuffer_meta_writes(*value),
{
    value.hash(hasher);
}

/// What the derived `Hash::hash` of `FixedFunctionState` writes into a hasher for `value`.
pub uninterp spec fn fixed_function_state_writes(value: FixedFunctionState) -> Seq<Seq<u8>>;

/// Feeds `value` to `hasher` through `FixedFunctionState`'s derived `Hash::hash`; the writes it appends are
/// named `fixed_function_state_writes(value)`.
#[verifier::external_body]
fn write_fixed_function_state(value: &FixedFunctionState, hasher: &mut DefaultHasher)
    ensures
        final(hasher)@ == old(hasher)@ + fixed_function_state_writes(*value),
{
    value.hash(hasher);
}

/// What `Vec<ImageViewKey>`'s `Hash::hash` writes into a hasher for a vector holding `items`.
pub uninterp spec fn image_view_keys_writes(items: Seq<ImageViewKey>) -> Seq<Seq<u8>>;

/// Feeds `values` to `hasher` through `Vec<ImageViewKey>`'s `Hash::hash`; the writes it appends are
/// named `image_view_keys_writes(values@)`.
#[verifier::external_body]
fn write_image_view_keys(values: &Vec<ImageViewKey>, hasher: &mut DefaultHasher)
    ensures
        final(hasher)@ == old(hasher)@ + image_view_keys_writes(values@),
{
    values.hash(hasher);
}

/// What `Vec<ShaderModuleMeta>`'s `Hash::hash` writes into a hasher for a vector holding `items`.
pub uninterp spec fn shader_module_metas_writes(items: Seq<ShaderModuleMeta>) -> Seq<Seq<u8>>;

/// Feeds `values` to `hasher` through `Vec<ShaderModuleMeta>`'s `Hash::hash`; the writes it appends are
/// named `shader_module_metas_writes(values@)`.
#[verifier::external_body]
fn write_shader_module_metas(values: &Vec<ShaderModuleMeta>, hasher: &mut DefaultHasher)
    ensures
        final(hasher)@ == old(hasher)@ + shader_module_metas_writes(values@),
{
    values.hash(hasher);
}

/// What `Vec<ShaderModuleKey>`'s `Hash::hash` writes into a hasher for a vector holding `items`.
pub uninterp spec fn shader_module_keys_writes(items: Seq<ShaderModuleKey>) -> Seq<Seq<u8>>;

/// Feeds `values` to `hasher` through `Vec<ShaderModuleKey>`'s `Hash::hash`; the writes it appends are
/// named `shader_module_keys_writes(values@)`.
#[verifier::external_body]
fn write_shader_module_keys(values: &Vec<ShaderModuleKey>, hasher: &mut DefaultHasher)
    ensures
        final(hasher)@ == old(hasher)@ + shader_module_keys_writes(values@),
{
    values.hash(hasher);
}

/// The hash under which a resource for `key` is stored.
pub open spec fn shader_module_key_hash(key: ShaderModuleKey) -> u64 {
    DefaultHasher::spec_finish(shader_module_key_writes(key))
}

/// Hashes `key` with std's `DefaultHasher`.
pub fn hash_shader_module_key(key: &ShaderModuleKey) -> (r: ResourceHash)
    ensures
        r.0 == shader_module_key_hash(*key),
{
    let mut hasher = DefaultHasher::new();
    write_shader_module_key(key, &mut hasher);
    proof {
        assert(hasher@ =~= shader_module_key_writes(*key));
    }
    ResourceHash(hasher.finish())
}

/// The hash under which a resource for `key` is stored.
pub open spec fn sampler_hash(key: Sampler) -> u64 {
    DefaultHasher::spec_finish(sampler_writes(key))
}

/// Hashes `key` with std's `DefaultHasher`.
pub fn hash_sampler(key: &Sampler) -> (r: ResourceHash)
    ensures
        r.0 == sampler_hash(*key),
{
    let mut hasher = DefaultHasher::new();
    write_sampler(key, &mut hasher);
    proof {
        assert(hasher@ =~= sampler_writes(*key));
    }
    ResourceHash(hasher.finish())
}

/// The hash under which a resource for `key` is stored.
pub open spec fn descriptor_set_layout_hash(key: DescriptorSetLayout) -> u64 {
    DefaultHasher::spec_finish(descriptor_set_layout_writes(key))
}

/// Hashes `key` with std's `DefaultHasher`.
pub fn hash_descriptor_set_layout(key: &DescriptorSetLayout) -> (r: ResourceHash)
    ensures
        r.0 == descriptor_set_layout_hash(*key),
{
    let mut hasher = DefaultHasher::new();
    write_descriptor_set_layout(key, &mut hasher);
    proof {
        assert(hasher@ =~= descriptor_set_layout_writes(*key));
    }
    ResourceHash(hasher.finish())
}

/// The hash under which a resource for `key` is stored.
pub open spec fn pipeline_layout_hash(key: PipelineLayout) -> u64 {
    DefaultHasher::spec_finish(pipeline_layout_writes(key))
}

/// Hashes `key` with std's `DefaultHasher`.
pub fn hash_pipeline_layout(key: &PipelineLayout) -> (r: ResourceHash)
    ensures
        r.0 == pipeline_layout_hash(*key),
{
    let mut hasher = DefaultHasher::new();
    write_pipeline_layout(key, &mut hasher);
    proof {
        assert(hasher@ =~= pipeline_layout_writes(*key));
    }
    ResourceHash(hasher.finish())
}

/// The hash under which a resource for `key` is stored.
pub open spec fn image_key_hash(key: ImageKey) -> u64 {
    DefaultHasher::spec_finish(image_key_writes(key))
}

/// Hashes `key` with std's `DefaultHasher`.
pub fn hash_image_key(key: &ImageKey) -> (r: ResourceHash)
    ensures
        r.0 == image_key_hash(*key),
{
    let mut hasher = DefaultHasher::new();
    write_image_key(key, &mut hasher);
    proof {
        assert(hasher@ =~= image_key_writes(*key));
    }
    ResourceHash(hasher.finish())
}

/// The hash under which a resource for `key` is stored.
pub open spec fn buffer_key_hash(key: BufferKey) -> u64 {
    DefaultHasher::spec_finish(buffer_key_writes(key))
}

/// Hashes `key` with std's `DefaultHasher`.
pub fn hash_buffer_key(key: &BufferKey) -> (r: ResourceHash)
    ensures
        r.0 == buffer_key_hash(*key),
{
    let mut hasher = DefaultHasher::new();
    write_buffer_key(key, &mut hasher);
    proof {
        assert(hasher@ =~= buffer_key_writes(*key));
    }
    ResourceHash(hasher.finish())
}

/// The hash under which a resource for `key` is stored.
pub open spec fn image_view_key_hash(key: ImageViewKey) -> u64 {
    DefaultHasher::spec_finish(image_view_key_writes(key))
}

/// Hashes `key` with std's `DefaultHasher`.
pub fn hash_image_view_key(key: &ImageViewKey) -> (r: ResourceHash)
    ensures
        r.0 == image_view_key_hash(*key),
{
    let mut hasher = DefaultHasher::new();
    write_image_view_key(key, &mut hasher);
    proof {
        assert(hasher@ =~= image_view_key_writes(*key));
    }
    ResourceHash(hasher.finish())
}

/// The hash of a renderpass key: the description, then the surface.
pub open spec fn renderpass_key_hash(renderpass: RenderPassDescription, surface: SwapchainSurfaceInfo) -> u64 {
    DefaultHasher::spec_finish(renderpass_description_writes(renderpass) + swapchain_surface_info_writes(surface))
}

/// Hashes a renderpass key: the description, then the surface, with std's `DefaultHasher`.
pub fn hash_renderpass_key(renderpass: &RenderPassDescription, surface: &SwapchainSurfaceInfo) -> (r: ResourceHash)
    ensures
        r.0 == renderpass_key_hash(*renderpass, *surface),
{
    let mut hasher = DefaultHasher::new();
    write_renderpass_description(renderpass, &mut hasher);
    write_swapchain_surface_info(surface, &mut hasher);
    proof {
        assert(hasher@ =~= renderpass_description_writes(*renderpass) + swapchain_surface_info_writes(*surface));
    }
    ResourceHash(hasher.finish())
}

/// The hash of a framebuffer key: the renderpass description, the image view keys, then the meta.
pub open spec fn framebuffer_key_hash(renderpass: RenderPassDescription, image_view_keys: Seq<ImageViewKey>, meta: FramebufferMeta) -> u64 {
    DefaultHasher::spec_finish(renderpass_description_writes(renderpass) + image_view_keys_writes(image_view_keys) + framebuffer_meta_writes(meta))
}

/// Hashes a framebuffer key: the renderpass description, the image view keys, then the meta, with std's `DefaultHasher`.
pub fn hash_framebuffer_key(renderpass: &RenderPassDescription, image_view_keys: &Vec<ImageViewKey>, meta: &FramebufferMeta) -> (r: ResourceHash)
    ensures
        r.0 == framebuffer_key_hash(*renderpass, image_view_keys@, *meta),
{
    let mut hasher = DefaultHasher::new();
    write_renderpass_description(renderpass, &mut hasher);
    write_image_view_keys(image_view_keys, &mut hasher);
    write_framebuffer_meta(meta, &mut hasher);
    proof {
        assert(hasher@ =~= renderpass_description_writes(*renderpass) + image_view_keys_writes(image_view_keys@) + framebuffer_meta_writes(*meta));
    }
    ResourceHash(hasher.finish())
}

/// The hash of a material pass key: the pipeline layout, the fixed-function state, the shader module metas, then the shader module keys.
pub open spec fn material_pass_key_of_hash(pipeline_layout: PipelineLayout, fixed_function_state: FixedFunctionState, shader_module_metas: Seq<ShaderModuleMeta>, shader_module_keys: Seq<ShaderModuleKey>) -> u64 {
    DefaultHasher::spec_finish(pipeline_layout_writes(pipeline_layout) + fixed_function_state_writes(fixed_function_state) + shader_module_metas_writes(shader_module_metas) + shader_module_keys_writes(shader_module_keys))
}

/// Hashes a material pass key: the pipeline layout, the fixed-function state, the shader module metas, then the shader module keys, with std's `DefaultHasher`.
pub fn hash_material_pass_key_of(pipeline_layout: &PipelineLayout, fixed_function_state: &FixedFunctionState, shader_module_metas: &Vec<ShaderModuleMeta>, shader_module_keys: &Vec<ShaderModuleKey>) -> (r: ResourceHash)
    ensures
        r.0 == material_pass_key_of_hash(*pipeline_layout, *fixed_function_state, shader_module_metas@, shader_module_keys@),
{
    let mut hasher = DefaultHasher::new();
    write_pipeline_layout(pipeline_layout, &mut hasher);
    write_fixed_function_state(fixed_function_state, &mut hasher);
    write_shader_module_metas(shader_module_metas, &mut hasher);
    write_shader_module_keys(shader_module_keys, &mut hasher);
    proof {
        assert(hasher@ =~= pipeline_layout_writes(*pipeline_layout) + fixed_function_state_writes(*fixed_function_state) + shader_module_metas_writes(shader_module_metas@) + shader_module_keys_writes(shader_module_keys@));
    }
    ResourceHash(hasher.finish())
}

/// The hash of a graphics pipeline key: the material pass key, then the renderpass key (description, then surface).
pub open spec fn graphics_pipeline_key_hash(material_pass_key: MaterialPassKey, renderpass: RenderPassDescription, surface: SwapchainSurfaceInfo) -> u64 {
    DefaultHasher::spec_finish(material_pass_key_writes(material_pass_key) + renderpass_description_writes(renderpass) + swapchain_surface_info_writes(surface))
}

/// Hashes a graphics pipeline key: the material pass key, then the renderpass key (description, then surface), with std's `DefaultHasher`.
pub fn hash_graphics_pipeline_key(material_pass_key: &MaterialPassKey, renderpass: &RenderPassDescription, surface: &SwapchainSurfaceInfo) -> (r: ResourceHash)
    ensures
        r.0 == graphics_pipeline_key_hash(*material_pass_key, *renderpass, *surface),
{
    let mut hasher = DefaultHasher::new();
    write_material_pass_key(material_pass_key, &mut hasher);
    write_renderpass_description(renderpass, &mut hasher);
    write_swapchain_surface_info(surface, &mut hasher);
    proof {
        assert(hasher@ =~= material_pass_key_writes(*material_pass_key) + renderpass_description_writes(*renderpass) + swapchain_surface_info_writes(*surface));
    }
    ResourceHash(hasher.finish())
}

} // verus!
