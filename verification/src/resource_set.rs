use vstd::prelude::*;
use crate::output_passes::RenderPassDescription;
use crate::descriptions::{
    copy_vec,
    DescriptorSetLayout, DescriptorSetLayoutBinding, FixedFunctionState, FramebufferMeta, ImageViewMeta, PipelineLayout, Sampler,
    ShaderModule, ShaderModuleMeta, SwapchainSurfaceInfo,
};
use crate::key_hashes::{
    buffer_key_hash, descriptor_set_layout_hash, framebuffer_key_hash, graphics_pipeline_key_hash, hash_buffer_key,
    hash_descriptor_set_layout, hash_framebuffer_key, hash_graphics_pipeline_key, hash_image_key,
    hash_image_view_key, hash_material_pass_key_of, hash_pipeline_layout, hash_renderpass_key, hash_sampler,
    hash_shader_module_key, image_key_hash, image_view_key_hash, material_pass_key_of_hash, pipeline_layout_hash,
    renderpass_key_hash, sampler_hash, shader_module_key_hash,
};
use crate::resource_lookup::{
    expired, handed_out, is_live, metric_of, spec_destroy_released, spec_destroyed, spec_frame_complete,
    spec_handle_dropped, wrapping_inc, LookupModel, spec_drop, spec_drop_all, spec_clone_all, arc_hashes,
    lemma_clone_all_fails_on, lemma_drop_undoes_clone, empty_lookup, get_or_create_step, counted_use,
    lemma_dropped_keeps_live, lookup_wf, count_of, lemma_step_adds_at_most_one, lemma_drop_all_adds_none,
    ResourceArc, ResourceLookup, ResourceLookupMetric, VkError, VK_ERROR_TOO_MANY_OBJECTS,
    VK_ERROR_UNKNOWN,
};

verus! {

//
// Keys for each resource type. Resources are deduplicated by the hash of their key.
//

#[derive(Clone, Copy, Debug, PartialEq, Eq, Hash, Structural)]
pub struct ShaderModuleKey {
    pub code_hash: u64,
}

#[derive(Clone, Debug, PartialEq, Eq, Hash)]
pub struct RenderPassKey {
    pub dsc: RenderPassDescription,
    pub swapchain_surface_info: SwapchainSurfaceInfo,
}

impl RenderPassKey {
    /// The renderpass description of the key.
    pub fn renderpass_def(&self) -> (r: &RenderPassDescription)
        ensures
            *r == self.dsc,
    {
        &self.dsc
    }
}

#[derive(Clone, Debug, PartialEq, Eq, Hash)]
pub struct FrameBufferKey {
    pub renderpass: RenderPassDescription,
    pub image_view_keys: Vec<ImageViewKey>,
    pub framebuffer_meta: FramebufferMeta,
}

#[derive(Clone, Debug, PartialEq, Eq, Hash)]
pub struct MaterialPassKey {
    pub pipeline_layout: PipelineLayout,
    pub fixed_function_state: FixedFunctionState,
    pub shader_module_metas: Vec<ShaderModuleMeta>,
    pub shader_module_keys: Vec<ShaderModuleKey>,
}

#[derive(Clone, Debug, PartialEq, Eq, Hash)]
pub struct GraphicsPipelineKey {
    pub material_pass_key: MaterialPassKey,
    pub renderpass_key: RenderPassKey,
}

#[derive(Clone, Copy, Debug, PartialEq, Eq, Hash, Structural)]
pub struct ImageKey {
    pub id: u64,
}

#[derive(Clone, Copy, Debug, PartialEq, Eq, Hash, Structural)]
pub struct BufferKey {
    pub id: u64,
}

#[derive(Clone, Copy, Debug, PartialEq, Eq, Hash, Structural)]
pub struct ImageViewKey {
    pub image_key: ImageKey,
    pub image_view_meta: ImageViewMeta,
}

/// The metrics of every lookup of a set.
#[derive(Clone, Copy, Debug, PartialEq, Eq, Structural)]
pub struct ResourceMetrics {
    pub shader_module_metrics: ResourceLookupMetric,
    pub descriptor_set_layout_metrics: ResourceLookupMetric,
    pub pipeline_layout_metrics: ResourceLookupMetric,
    pub renderpass_metrics: ResourceLookupMetric,
    pub framebuffer_metrics: ResourceLookupMetric,
    pub material_pass_metrics: ResourceLookupMetric,
    pub graphics_pipeline_metrics: ResourceLookupMetric,
    pub image_metrics: ResourceLookupMetric,
    pub image_view_metrics: ResourceLookupMetric,
    pub sampler_metrics: ResourceLookupMetric,
    pub buffer_metrics: ResourceLookupMetric,
}

//
// The resources. Vulkan objects are held by their raw handles.
//

#[derive(Debug)]
pub struct ShaderModuleResource {
    pub shader_module_key: ShaderModuleKey,
    pub shader_module_def: ShaderModule,
    pub shader_module: u64,
}

#[derive(Debug)]
pub struct DescriptorSetLayoutResource {
    pub descriptor_set_layout: u64,
    pub descriptor_set_layout_def: DescriptorSetLayout,
    pub immutable_samplers: Vec<ResourceArc<u64>>,
}

#[derive(Debug)]
pub struct PipelineLayoutResource {
    pub pipeline_layout: u64,
    pub pipeline_layout_def: PipelineLayout,
    pub descriptor_sets: Vec<ResourceArc<DescriptorSetLayoutResource>>,
}

#[derive(Debug)]
pub struct MaterialPassResource {
    pub material_pass_key: MaterialPassKey,
    pub pipeline_layout: ResourceArc<PipelineLayoutResource>,
    pub shader_modules: Vec<ResourceArc<ShaderModuleResource>>,
    pub shader_module_vk_objs: Vec<u64>,
}

#[derive(Debug)]
pub struct GraphicsPipelineResource {
    pub pipelines: Vec<u64>,
    pub pipeline_layout: ResourceArc<PipelineLayoutResource>,
    pub renderpass: ResourceArc<RenderPassResource>,
}

#[derive(Debug)]
pub struct RenderPassResource {
    pub renderpass: u64,
    pub renderpass_key: RenderPassKey,
}

#[derive(Debug)]
pub struct FramebufferResource {
    pub framebuffer: u64,
    pub framebuffer_key: FrameBufferKey,
    pub renderpass: ResourceArc<RenderPassResource>,
    pub attachments: Vec<ResourceArc<ImageViewResource>>,
}

/// A raw image and its memory.
#[derive(Clone, Copy, Debug, PartialEq, Eq, Structural)]
pub struct ImageRaw {
    pub image: u64,
    pub allocation: u64,
}

/// An image that owns its raw image until the raw image is taken out of it.
#[derive(Clone, Copy, Debug, PartialEq, Eq, Structural)]
pub struct VkImage {
    pub raw: Option<ImageRaw>,
}

/// A raw buffer and its memory.
#[derive(Clone, Copy, Debug, PartialEq, Eq, Structural)]
pub struct BufferRaw {
    pub buffer: u64,
    pub allocation: u64,
}

#[derive(Debug)]
pub struct ImageResource {
    pub image: ImageRaw,
    // Dynamic resources have no key
    pub image_key: Option<ImageKey>,
}

#[derive(Debug)]
pub struct ImageViewResource {
    pub image_view: u64,
    pub image: ResourceArc<ImageResource>,
    // Dynamic resources have no key
    pub image_view_key: Option<ImageViewKey>,
}


/// The lookups of every kind of GPU resource, and the counters that give images and buffers
/// their keys.
pub struct ResourceLookupSet {
    pub shader_modules: ResourceLookup<ShaderModuleKey, ShaderModuleResource>,
    pub descriptor_set_layouts: ResourceLookup<DescriptorSetLayout, DescriptorSetLayoutResource>,
    pub pipeline_layouts: ResourceLookup<PipelineLayout, PipelineLayoutResource>,
    pub render_passes: ResourceLookup<RenderPassKey, RenderPassResource>,
    pub framebuffers: ResourceLookup<FrameBufferKey, FramebufferResource>,
    pub material_passes: ResourceLookup<MaterialPassKey, MaterialPassResource>,
    pub graphics_pipelines: ResourceLookup<GraphicsPipelineKey, GraphicsPipelineResource>,
    pub images: ResourceLookup<ImageKey, ImageResource>,
    pub image_views: ResourceLookup<ImageViewKey, ImageViewResource>,
    pub samplers: ResourceLookup<Sampler, u64>,
    pub buffers: ResourceLookup<BufferKey, BufferRaw>,
    pub next_image_id: u64,
    pub next_buffer_id: u64,
}

/// The metrics that the lookups of `set` report.
pub open spec fn metrics_of(set: ResourceLookupSet) -> ResourceMetrics {
    ResourceMetrics {
        shader_module_metrics: metric_of(set.shader_modules@),
        descriptor_set_layout_metrics: metric_of(set.descriptor_set_layouts@),
        pipeline_layout_metrics: metric_of(set.pipeline_layouts@),
        renderpass_metrics: metric_of(set.render_passes@),
        framebuffer_metrics: metric_of(set.framebuffers@),
        material_pass_metrics: metric_of(set.material_passes@),
        graphics_pipeline_metrics: metric_of(set.graphics_pipelines@),
        image_metrics: metric_of(set.images@),
        image_view_metrics: metric_of(set.image_views@),
        sampler_metrics: metric_of(set.samplers@),
        buffer_metrics: metric_of(set.buffers@),
    }
}

/// Nothing released.
fn no_released() -> (r: ReleasedResources)
    ensures
        r.images@.len() == 0,
        r.image_views@.len() == 0,
        r.buffers@.len() == 0,
        r.shader_modules@.len() == 0,
        r.samplers@.len() == 0,
        r.descriptor_set_layouts@.len() == 0,
        r.pipeline_layouts@.len() == 0,
        r.render_passes@.len() == 0,
        r.framebuffers@.len() == 0,
        r.material_passes@.len() == 0,
        r.graphics_pipelines@.len() == 0,
{
    ReleasedResources {
        images: Vec::new(),
        image_views: Vec::new(),
        buffers: Vec::new(),
        shader_modules: Vec::new(),
        samplers: Vec::new(),
        descriptor_set_layouts: Vec::new(),
        pipeline_layouts: Vec::new(),
        render_passes: Vec::new(),
        framebuffers: Vec::new(),
        material_passes: Vec::new(),
        graphics_pipelines: Vec::new(),
    }
}

/// The resources that no frame in flight can use anymore, for the caller to destroy.
pub struct ReleasedResources {
    pub images: Vec<ImageResource>,
    pub image_views: Vec<ImageViewResource>,
    pub buffers: Vec<BufferRaw>,
    pub shader_modules: Vec<ShaderModuleResource>,
    pub samplers: Vec<u64>,
    pub descriptor_set_layouts: Vec<DescriptorSetLayoutResource>,
    pub pipeline_layouts: Vec<PipelineLayoutResource>,
    pub render_passes: Vec<RenderPassResource>,
    pub framebuffers: Vec<FramebufferResource>,
    pub material_passes: Vec<MaterialPassResource>,
    pub graphics_pipelines: Vec<GraphicsPipelineResource>,
}

impl ResourceLookupSet {
    pub open spec fn wf(&self) -> bool {
        &&& self.shader_modules.wf()
        &&& self.descriptor_set_layouts.wf()
        &&& self.pipeline_layouts.wf()
        &&& self.render_passes.wf()
        &&& self.framebuffers.wf()
        &&& self.material_passes.wf()
        &&& self.graphics_pipelines.wf()
        &&& self.images.wf()
        &&& self.image_views.wf()
        &&& self.samplers.wf()
        &&& self.buffers.wf()
    }

    /// Empty lookups whose retired resources wait for `max_frames_in_flight` frames.
    pub fn new(max_frames_in_flight: u32) -> (r: Self)
        ensures
            r.wf(),
            r.images@.max_frames_in_flight == max_frames_in_flight,
            r.images@.resources.len() == 0,
            r.buffers@.resources.len() == 0,
            r.shader_modules@ == empty_lookup::<ShaderModuleResource>(max_frames_in_flight),
            r.descriptor_set_layouts@ == empty_lookup::<DescriptorSetLayoutResource>(max_frames_in_flight),
            r.pipeline_layouts@ == empty_lookup::<PipelineLayoutResource>(max_frames_in_flight),
            r.render_passes@ == empty_lookup::<RenderPassResource>(max_frames_in_flight),
            r.framebuffers@ == empty_lookup::<FramebufferResource>(max_frames_in_flight),
            r.material_passes@ == empty_lookup::<MaterialPassResource>(max_frames_in_flight),
            r.graphics_pipelines@ == empty_lookup::<GraphicsPipelineResource>(max_frames_in_flight),
            r.images@ == empty_lookup::<ImageResource>(max_frames_in_flight),
            r.image_views@ == empty_lookup::<ImageViewResource>(max_frames_in_flight),
            r.samplers@ == empty_lookup::<u64>(max_frames_in_flight),
            r.buffers@ == empty_lookup::<BufferRaw>(max_frames_in_flight),
            r.next_image_id == 0,
            r.next_buffer_id == 0,
    {
        ResourceLookupSet {
            shader_modules: ResourceLookup::new(max_frames_in_flight),
            descriptor_set_layouts: ResourceLookup::new(max_frames_in_flight),
            pipeline_layouts: ResourceLookup::new(max_frames_in_flight),
            render_passes: ResourceLookup::new(max_frames_in_flight),
            framebuffers: ResourceLookup::new(max_frames_in_flight),
            material_passes: ResourceLookup::new(max_frames_in_flight),
            graphics_pipelines: ResourceLookup::new(max_frames_in_flight),
            images: ResourceLookup::new(max_frames_in_flight),
            image_views: ResourceLookup::new(max_frames_in_flight),
            samplers: ResourceLookup::new(max_frames_in_flight),
            buffers: ResourceLookup::new(max_frames_in_flight),
            next_image_id: 0,
            next_buffer_id: 0,
        }
    }

    /// A frame completed: each lookup retires what was dropped, and the resources no frame in
    /// flight can use anymore are returned, for `release_held_handles`.
    pub fn on_frame_complete(&mut self) -> (r: ReleasedResources)
        requires
            old(self).wf(),
        ensures
            final(self).wf(),
            final(self).images@ == spec_frame_complete(old(self).images@),
            r.images@ == expired(spec_handle_dropped(old(self).images@).in_flight),
            final(self).image_views@ == spec_frame_complete(old(self).image_views@),
            r.image_views@ == expired(spec_handle_dropped(old(self).image_views@).in_flight),
            final(self).buffers@ == spec_frame_complete(old(self).buffers@),
            r.buffers@ == expired(spec_handle_dropped(old(self).buffers@).in_flight),
            final(self).shader_modules@ == spec_frame_complete(old(self).shader_modules@),
            r.shader_modules@ == expired(spec_handle_dropped(old(self).shader_modules@).in_flight),
            final(self).samplers@ == spec_frame_complete(old(self).samplers@),
            r.samplers@ == expired(spec_handle_dropped(old(self).samplers@).in_flight),
            final(self).descriptor_set_layouts@ == spec_frame_complete(old(self).descriptor_set_layouts@),
            r.descriptor_set_layouts@ == expired(spec_handle_dropped(old(self).descriptor_set_layouts@).in_flight),
            final(self).pipeline_layouts@ == spec_frame_complete(old(self).pipeline_layouts@),
            r.pipeline_layouts@ == expired(spec_handle_dropped(old(self).pipeline_layouts@).in_flight),
            final(self).render_passes@ == spec_frame_complete(old(self).render_passes@),
            r.render_passes@ == expired(spec_handle_dropped(old(self).render_passes@).in_flight),
            final(self).framebuffers@ == spec_frame_complete(old(self).framebuffers@),
            r.framebuffers@ == expired(spec_handle_dropped(old(self).framebuffers@).in_flight),
            final(self).material_passes@ == spec_frame_complete(old(self).material_passes@),
            r.material_passes@ == expired(spec_handle_dropped(old(self).material_passes@).in_flight),
            final(self).graphics_pipelines@ == spec_frame_complete(old(self).graphics_pipelines@),
            r.graphics_pipelines@ == expired(spec_handle_dropped(old(self).graphics_pipelines@).in_flight),
            final(self).next_image_id == old(self).next_image_id,
            final(self).next_buffer_id == old(self).next_buffer_id,
    {
        let images = self.images.on_frame_complete();
        let image_views = self.image_views.on_frame_complete();
        let buffers = self.buffers.on_frame_complete();
        let shader_modules = self.shader_modules.on_frame_complete();
        let samplers = self.samplers.on_frame_complete();
        let descriptor_set_layouts = self.descriptor_set_layouts.on_frame_complete();
        let pipeline_layouts = self.pipeline_layouts.on_frame_complete();
        let render_passes = self.render_passes.on_frame_complete();
        let framebuffers = self.framebuffers.on_frame_complete();
        let material_passes = self.material_passes.on_frame_complete();
        let graphics_pipelines = self.graphics_pipelines.on_frame_complete();
        ReleasedResources {
            images,
            image_views,
            buffers,
            shader_modules,
            samplers,
            descriptor_set_layouts,
            pipeline_layouts,
            render_passes,
            framebuffers,
            material_passes,
            graphics_pipelines,
        }
    }

    /// Releases every retired resource now, dependents first: each lookup is emptied of its
    /// retired resources only after the handles that the released resources of the lookups
    /// before it held have been dropped, so that what only they used is released too. Returns
    /// the raw objects to destroy, with the metrics left after: the resources still counted
    /// there have handles and leak.
    pub fn destroy(&mut self) -> (r: (ReleasedObjects, ResourceMetrics))
        requires
            old(self).wf(),
        ensures
            final(self).wf(),
            ({
                let gps = spec_destroy_released(old(self).graphics_pipelines@);
                let mps = spec_destroy_released(old(self).material_passes@);
                let fbs = spec_destroy_released(old(self).framebuffers@);
                let rp = spec_drop_all(spec_drop_all(old(self).render_passes@,
                    gps.map_values(|g: GraphicsPipelineResource| g.renderpass.spec_hash())),
                    fbs.map_values(|f: FramebufferResource| f.renderpass.spec_hash()));
                let pl = spec_drop_all(spec_drop_all(old(self).pipeline_layouts@,
                    gps.map_values(|g: GraphicsPipelineResource| g.pipeline_layout.spec_hash())),
                    mps.map_values(|m: MaterialPassResource| m.pipeline_layout.spec_hash()));
                let pls = spec_destroy_released(pl);
                let dsl = spec_drop_all(old(self).descriptor_set_layouts@,
                    joined(pls.map_values(|p: PipelineLayoutResource| arc_hashes(p.descriptor_sets@))));
                let dsls = spec_destroy_released(dsl);
                let sa = spec_drop_all(old(self).samplers@,
                    joined(dsls.map_values(|d: DescriptorSetLayoutResource| arc_hashes(d.immutable_samplers@))));
                let sm = spec_drop_all(old(self).shader_modules@,
                    joined(mps.map_values(|m: MaterialPassResource| arc_hashes(m.shader_modules@))));
                let iv = spec_drop_all(old(self).image_views@,
                    joined(fbs.map_values(|f: FramebufferResource| arc_hashes(f.attachments@))));
                let ivs = spec_destroy_released(iv);
                let im = spec_drop_all(old(self).images@, ivs.map_values(|v: ImageViewResource| v.image.spec_hash()));
                &&& final(self).graphics_pipelines@ == spec_destroyed(old(self).graphics_pipelines@)
                &&& final(self).material_passes@ == spec_destroyed(old(self).material_passes@)
                &&& final(self).framebuffers@ == spec_destroyed(old(self).framebuffers@)
                &&& final(self).render_passes@ == spec_destroyed(rp)
                &&& final(self).pipeline_layouts@ == spec_destroyed(pl)
                &&& final(self).descriptor_set_layouts@ == spec_destroyed(dsl)
                &&& final(self).samplers@ == spec_destroyed(sa)
                &&& final(self).shader_modules@ == spec_destroyed(sm)
                &&& final(self).buffers@ == spec_destroyed(old(self).buffers@)
                &&& final(self).image_views@ == spec_destroyed(iv)
                &&& final(self).images@ == spec_destroyed(im)
                &&& r.0.graphics_pipelines@ == gps.map_values(|x: GraphicsPipelineResource| x.pipelines)
                &&& r.0.framebuffers@ == fbs.map_values(|x: FramebufferResource| x.framebuffer)
                &&& r.0.render_passes@ == spec_destroy_released(rp).map_values(|x: RenderPassResource| x.renderpass)
                &&& r.0.pipeline_layouts@ == pls.map_values(|x: PipelineLayoutResource| x.pipeline_layout)
                &&& r.0.descriptor_set_layouts@ == dsls.map_values(|x: DescriptorSetLayoutResource| x.descriptor_set_layout)
                &&& r.0.samplers@ == spec_destroy_released(sa)
                &&& r.0.shader_modules@ == spec_destroy_released(sm).map_values(|x: ShaderModuleResource| x.shader_module)
                &&& r.0.buffers@ == spec_destroy_released(old(self).buffers@)
                &&& r.0.image_views@ == ivs.map_values(|x: ImageViewResource| x.image_view)
                &&& r.0.images@ == spec_destroy_released(im).map_values(|x: ImageResource| x.image)
            }),
            r.1 == metrics_of(*final(self)),
    {
        let ghost s0 = *self;
        let (graphics_pipelines, _) = self.graphics_pipelines.destroy();
        let o_gp = self.release_held_handles(ReleasedResources { graphics_pipelines, ..no_released() });
        let (material_passes, _) = self.material_passes.destroy();
        let o_mp = self.release_held_handles(ReleasedResources { material_passes, ..no_released() });
        let (framebuffers, _) = self.framebuffers.destroy();
        let o_fb = self.release_held_handles(ReleasedResources { framebuffers, ..no_released() });
        let (render_passes, _) = self.render_passes.destroy();
        let o_rp = self.release_held_handles(ReleasedResources { render_passes, ..no_released() });
        let (pipeline_layouts, _) = self.pipeline_layouts.destroy();
        let o_pl = self.release_held_handles(ReleasedResources { pipeline_layouts, ..no_released() });
        let (descriptor_set_layouts, _) = self.descriptor_set_layouts.destroy();
        let o_dsl = self.release_held_handles(ReleasedResources { descriptor_set_layouts, ..no_released() });
        let (samplers, _) = self.samplers.destroy();
        let (shader_modules, _) = self.shader_modules.destroy();
        let o_sm = self.release_held_handles(ReleasedResources { shader_modules, ..no_released() });
        let (buffers, _) = self.buffers.destroy();
        let (image_views, _) = self.image_views.destroy();
        let o_iv = self.release_held_handles(ReleasedResources { image_views, ..no_released() });
        let (images, _) = self.images.destroy();
        let o_im = self.release_held_handles(ReleasedResources { images, ..no_released() });
        let leaked = self.metrics();
        (ReleasedObjects {
            images: o_im.images,
            image_views: o_iv.image_views,
            buffers,
            shader_modules: o_sm.shader_modules,
            samplers,
            descriptor_set_layouts: o_dsl.descriptor_set_layouts,
            pipeline_layouts: o_pl.pipeline_layouts,
            render_passes: o_rp.render_passes,
            framebuffers: o_fb.framebuffers,
            graphics_pipelines: o_gp.graphics_pipelines,
        }, leaked)
    }

    /// The metrics of every lookup.
    pub fn metrics(&self) -> (r: ResourceMetrics)
        ensures
            r == metrics_of(*self),
            r.image_metrics == metric_of(self.images@),
            r.image_view_metrics == metric_of(self.image_views@),
            r.buffer_metrics == metric_of(self.buffers@),
            r.shader_module_metrics == metric_of(self.shader_modules@),
            r.sampler_metrics == metric_of(self.samplers@),
            r.descriptor_set_layout_metrics == metric_of(self.descriptor_set_layouts@),
            r.pipeline_layout_metrics == metric_of(self.pipeline_layouts@),
            r.renderpass_metrics == metric_of(self.render_passes@),
            r.framebuffer_metrics == metric_of(self.framebuffers@),
            r.material_pass_metrics == metric_of(self.material_passes@),
            r.graphics_pipeline_metrics == metric_of(self.graphics_pipelines@),
    {
        ResourceMetrics {
            shader_module_metrics: self.shader_modules.metrics(),
            descriptor_set_layout_metrics: self.descriptor_set_layouts.metrics(),
            pipeline_layout_metrics: self.pipeline_layouts.metrics(),
            renderpass_metrics: self.render_passes.metrics(),
            framebuffer_metrics: self.framebuffers.metrics(),
            material_pass_metrics: self.material_passes.metrics(),
            graphics_pipeline_metrics: self.graphics_pipelines.metrics(),
            image_metrics: self.images.metrics(),
            image_view_metrics: self.image_views.metrics(),
            sampler_metrics: self.samplers.metrics(),
            buffer_metrics: self.buffers.metrics(),
        }
    }
}


impl ResourceLookupSet {
    /// The shader module for this code, created by `create` when none is live.
    pub fn get_or_create_shader_module<F>(&mut self, shader_module_def: &ShaderModule, create: F) -> (r: Result<ResourceArc<ShaderModuleResource>, VkError>)
        where
            F: FnOnce() -> Result<u64, VkError>,
        requires
            old(self).shader_modules.wf(),
            create.requires(()),
            // No other key's module is live under this key's hash.
            ({
                let key = ShaderModuleKey { code_hash: shader_module_def.code_hash };
                let h = shader_module_key_hash(key);
                is_live(old(self).shader_modules@, h) ==> old(self).shader_modules@.resources[h].shader_module_key == key
            }),
        ensures
            final(self).shader_modules.wf(),
            r is Ok ==> final(self).shader_modules@.resources[r->Ok_0.spec_hash()].shader_module_key
                == (ShaderModuleKey { code_hash: shader_module_def.code_hash }),
            r is Ok ==> {
                let h = r->Ok_0.spec_hash();
                &&& handed_out(old(self).shader_modules@, final(self).shader_modules@, h)
                &&& !is_live(old(self).shader_modules@, h) ==> create.ensures((), Ok::<u64, VkError>(final(self).shader_modules@.resources[h].shader_module))
                    && final(self).shader_modules@.resources[h].shader_module_key == (ShaderModuleKey { code_hash: shader_module_def.code_hash })
            },
            r is Err ==> r->Err_0 == VkError(VK_ERROR_TOO_MANY_OBJECTS) || create.ensures((), Err::<u64, VkError>(r->Err_0)),
            ({
                let h = shader_module_key_hash(ShaderModuleKey { code_hash: shader_module_def.code_hash });
                &&& get_or_create_step(counted_use(old(self).shader_modules@), h, final(self).shader_modules@, r)
                &&& !is_live(old(self).shader_modules@, h) ==> match r {
                    Ok(_) => create.ensures((), Ok::<u64, VkError>(final(self).shader_modules@.resources[h].shader_module))
                        && final(self).shader_modules@.resources[h].shader_module_key == (ShaderModuleKey { code_hash: shader_module_def.code_hash }),
                    Err(e) => create.ensures((), Err::<u64, VkError>(e)),
                }
            }),
    {
        let shader_module_key = ShaderModuleKey { code_hash: shader_module_def.code_hash };
        let hash = hash_shader_module_key(&shader_module_key);
        let def = shader_module_def.clone();
        let make = move || -> (m: Result<ShaderModuleResource, VkError>)
            requires
                create.requires(()),
            ensures
                m is Ok ==> create.ensures((), Ok::<u64, VkError>(m->Ok_0.shader_module)) && m->Ok_0.shader_module_key == shader_module_key,
                m is Err ==> create.ensures((), Err::<u64, VkError>(m->Err_0)),
        {
            match create() {
                Ok(shader_module) => Ok(ShaderModuleResource { shader_module_key, shader_module_def: def, shader_module }),
                Err(e) => Err(e),
            }
        };
        self.shader_modules.get_or_create(hash, &shader_module_key, make)
    }

    /// As `get_or_create_shader_module`, after checking that no module of another key is live
    /// under this key's hash; when one is, nothing is done and `None` is returned.
    pub fn checked_get_or_create_shader_module<F>(&mut self, shader_module_def: &ShaderModule, create: F) -> (r: Option<Result<ResourceArc<ShaderModuleResource>, VkError>>)
        where
            F: FnOnce() -> Result<u64, VkError>,
        requires
            old(self).shader_modules.wf(),
            create.requires(()),
        ensures
            final(self).shader_modules.wf(),
            ({
                let key = ShaderModuleKey { code_hash: shader_module_def.code_hash };
                let h = shader_module_key_hash(key);
                &&& r is None <==> (is_live(old(self).shader_modules@, h) && old(self).shader_modules@.resources[h].shader_module_key != key)
                &&& r is None ==> final(self).shader_modules@ == old(self).shader_modules@
                &&& r matches Some(res) ==> {
                    &&& get_or_create_step(counted_use(old(self).shader_modules@), h, final(self).shader_modules@, res)
                    &&& res is Ok ==> final(self).shader_modules@.resources[h].shader_module_key == key
                    &&& !is_live(old(self).shader_modules@, h) ==> match res {
                        Ok(_) => create.ensures((), Ok::<u64, VkError>(final(self).shader_modules@.resources[h].shader_module)),
                        Err(e) => create.ensures((), Err::<u64, VkError>(e)),
                    }
                }
            }),
    {
        let key = ShaderModuleKey { code_hash: shader_module_def.code_hash };
        let hash = hash_shader_module_key(&key);
        if self.shader_modules.is_live_hash(hash) {
            proof {
                self.shader_modules.lemma_wf_model();
            }
            let stored = self.shader_modules.resource_at(hash).unwrap().shader_module_key;
            if stored != key {
                return None;
            }
        }
        Some(self.get_or_create_shader_module(shader_module_def, create))
    }

    /// As `insert_raw_image`, after checking that no other image is live under the new key's
    /// hash; when one is, nothing is done and `None` is returned.
    pub fn checked_insert_raw_image(&mut self, raw_image: ImageRaw) -> (r: Option<Result<ResourceArc<ImageResource>, VkError>>)
        requires
            old(self).images.wf(),
        ensures
            final(self).images.wf(),
            ({
                let key = ImageKey { id: old(self).next_image_id };
                let h = image_key_hash(key);
                &&& r is None <==> (is_live(old(self).images@, h) && old(self).images@.resources[h].image_key != Some(key))
                &&& r is None ==> *final(self) == *old(self)
                &&& r matches Some(res) ==> {
                    &&& final(self).next_image_id == wrapping_inc(old(self).next_image_id)
                    &&& get_or_create_step(counted_use(old(self).images@), h, final(self).images@, res)
                    &&& res is Err <==> is_live(old(self).images@, h) && old(self).images@.strong_counts[h] == u64::MAX
                    &&& res is Ok ==> final(self).images@.resources[h].image_key == Some(key)
                    &&& (res is Ok && !is_live(old(self).images@, h)) ==> final(self).images@.resources[h].image == raw_image
                }
            }),
    {
        let key = ImageKey { id: self.next_image_id };
        let hash = hash_image_key(&key);
        if self.images.is_live_hash(hash) {
            proof {
                self.images.lemma_wf_model();
            }
            let stored = self.images.resource_at(hash).unwrap().image_key;
            let same = match stored {
                Some(k) => k == key,
                None => false,
            };
            if !same {
                return None;
            }
        }
        Some(self.insert_raw_image(raw_image))
    }

    /// As `get_or_create_image_view`, after checking that no view of another key is live
    /// under this key's hash; when one is, nothing is done and `None` is returned.
    pub fn checked_get_or_create_image_view<F>(
        &mut self,
        image: &ResourceArc<ImageResource>,
        image_view_meta: &ImageViewMeta,
        create: F,
    ) -> (r: Option<Result<ResourceArc<ImageViewResource>, VkError>>)
        where
            F: FnOnce() -> Result<u64, VkError>,
        requires
            old(self).images.wf(),
            old(self).image_views.wf(),
            create.requires(()),
        ensures
            final(self).images.wf(),
            final(self).image_views.wf(),
            ({
                let keyed = old(self).images@.resources.contains_key(image.spec_hash())
                    && old(self).images@.resources[image.spec_hash()].image_key is Some;
                let key = ImageViewKey { image_key: old(self).images@.resources[image.spec_hash()].image_key->0, image_view_meta: *image_view_meta };
                let h = image_view_key_hash(key);
                let collides = keyed && is_live(old(self).image_views@, h) && old(self).image_views@.resources[h].image_view_key != Some(key);
                &&& r is None <==> collides
                &&& r is None ==> final(self).images@ == old(self).images@ && final(self).image_views@ == old(self).image_views@
                &&& r matches Some(res) ==> {
                    &&& !keyed ==> res == Err::<ResourceArc<ImageViewResource>, VkError>(VkError(VK_ERROR_UNKNOWN))
                    &&& res is Ok ==> res->Ok_0.spec_hash() == h
                        && final(self).image_views@.resources[h].image_view_key == Some(key)
                }
            }),
    {
        let image_key = match self.images.resource(image) {
            Some(resource) => resource.image_key,
            None => None,
        };
        match image_key {
            Some(k) => {
                let key = ImageViewKey { image_key: k, image_view_meta: *image_view_meta };
                let hash = hash_image_view_key(&key);
                if self.image_views.is_live_hash(hash) {
                    proof {
                        self.image_views.lemma_wf_model();
                    }
                    let stored = self.image_views.resource_at(hash).unwrap().image_view_key;
                    let same = match stored {
                        Some(s) => s == key,
                        None => false,
                    };
                    if !same {
                        return None;
                    }
                }
            },
            None => {},
        }
        Some(self.get_or_create_image_view(image, image_view_meta, create))
    }

    /// The sampler for this description, created by `create` when none is live.
    pub fn get_or_create_sampler<F>(&mut self, sampler: &Sampler, create: F) -> (r: Result<ResourceArc<u64>, VkError>)
        where
            F: FnOnce() -> Result<u64, VkError>,
        requires
            old(self).samplers.wf(),
            create.requires(()),
        ensures
            final(self).samplers.wf(),
            final(self).descriptor_set_layouts == old(self).descriptor_set_layouts,
            final(self).pipeline_layouts == old(self).pipeline_layouts,
            r is Ok ==> {
                let h = r->Ok_0.spec_hash();
                &&& handed_out(old(self).samplers@, final(self).samplers@, h)
                &&& !is_live(old(self).samplers@, h) ==> create.ensures((), Ok::<u64, VkError>(final(self).samplers@.resources[h]))
            },
            r is Err ==> r->Err_0 == VkError(VK_ERROR_TOO_MANY_OBJECTS) || create.ensures((), Err::<u64, VkError>(r->Err_0)),
            get_or_create_step(counted_use(old(self).samplers@), sampler_hash(*sampler), final(self).samplers@, r),
            !is_live(old(self).samplers@, sampler_hash(*sampler)) ==> match r {
                Ok(_) => create.ensures((), Ok::<u64, VkError>(final(self).samplers@.resources[sampler_hash(*sampler)])),
                Err(e) => create.ensures((), Err::<u64, VkError>(e)),
            },
    {
        let hash = hash_sampler(sampler);
        self.samplers.get_or_create(hash, sampler, create)
    }

    /// The renderpass for this description on this surface, created by `create` when none is
    /// live. A new renderpass keeps its key: a copy of the description and the surface.
    pub fn get_or_create_renderpass<F>(
        &mut self,
        renderpass: &RenderPassDescription,
        swapchain_surface_info: &SwapchainSurfaceInfo,
        create: F,
    ) -> (r: Result<ResourceArc<RenderPassResource>, VkError>)
        where
            F: FnOnce() -> Result<u64, VkError>,
        requires
            old(self).render_passes.wf(),
            create.requires(()),
            // No other key's renderpass is live under this key's hash.
            ({
                let h = renderpass_key_hash(*renderpass, *swapchain_surface_info);
                is_live(old(self).render_passes@, h)
                    ==> renderpass_stored_for(old(self).render_passes@.resources[h], *renderpass, *swapchain_surface_info)
            }),
        ensures
            final(self).render_passes.wf(),
            r is Ok ==> renderpass_stored_for(final(self).render_passes@.resources[r->Ok_0.spec_hash()], *renderpass, *swapchain_surface_info),
            ({
                let h = renderpass_key_hash(*renderpass, *swapchain_surface_info);
                &&& get_or_create_step(counted_use(old(self).render_passes@), h, final(self).render_passes@, r)
                &&& !is_live(old(self).render_passes@, h) ==> match r {
                    Ok(_) => {
                        let res = final(self).render_passes@.resources[h];
                        &&& create.ensures((), Ok::<u64, VkError>(res.renderpass))
                        &&& res.renderpass_key.dsc.same_as(*renderpass)
                        &&& res.renderpass_key.swapchain_surface_info == *swapchain_surface_info
                    },
                    Err(e) => create.ensures((), Err::<u64, VkError>(e)),
                }
            }),
    {
        let hash = hash_renderpass_key(renderpass, swapchain_surface_info);
        let surface = *swapchain_surface_info;
        let renderpass_key = RenderPassKey { dsc: renderpass.duplicate(), swapchain_surface_info: surface };
        let key_for_resource = RenderPassKey { dsc: renderpass.duplicate(), swapchain_surface_info: surface };
        let ghost dsc = *renderpass;
        let make = move || -> (m: Result<RenderPassResource, VkError>)
            requires
                create.requires(()),
                key_for_resource.swapchain_surface_info == surface,
                key_for_resource.dsc.same_as(dsc),
            ensures
                m is Ok ==> create.ensures((), Ok::<u64, VkError>(m->Ok_0.renderpass))
                    && m->Ok_0.renderpass_key.swapchain_surface_info == surface
                    && m->Ok_0.renderpass_key.dsc.same_as(dsc),
                m is Err ==> create.ensures((), Err::<u64, VkError>(m->Err_0)),
        {
            match create() {
                Ok(raw) => Ok(RenderPassResource { renderpass: raw, renderpass_key: key_for_resource }),
                Err(e) => Err(e),
            }
        };
        self.render_passes.get_or_create(hash, &renderpass_key, make)
    }

    /// Adds an image under a new key, taking its raw image out of it.
    pub fn insert_image(&mut self, image: VkImage) -> (r: Result<ResourceArc<ImageResource>, VkError>)
        requires
            old(self).images.wf(),
            image.raw is Some,
            // No other image is live under the new key's hash.
            ({
                let key = ImageKey { id: old(self).next_image_id };
                is_live(old(self).images@, image_key_hash(key)) ==> old(self).images@.resources[image_key_hash(key)].image_key == Some(key)
            }),
        ensures
            final(self).images.wf(),
            r is Ok ==> final(self).images@.resources[r->Ok_0.spec_hash()].image_key == Some(ImageKey { id: old(self).next_image_id }),
            final(self).next_image_id == wrapping_inc(old(self).next_image_id),
            r is Ok ==> {
                let h = r->Ok_0.spec_hash();
                &&& handed_out(old(self).images@, final(self).images@, h)
                &&& !is_live(old(self).images@, h) ==> final(self).images@.resources[h].image == image.raw->0
                    && final(self).images@.resources[h].image_key == Some(ImageKey { id: old(self).next_image_id })
            },
            r is Err ==> r->Err_0 == VkError(VK_ERROR_TOO_MANY_OBJECTS),
            ({
                let h = image_key_hash(ImageKey { id: old(self).next_image_id });
                &&& get_or_create_step(counted_use(old(self).images@), h, final(self).images@, r)
                &&& r is Err <==> is_live(old(self).images@, h) && old(self).images@.strong_counts[h] == u64::MAX
            }),
    {
        let raw_image = image.raw.unwrap();
        self.insert_raw_image(raw_image)
    }

    /// Adds an image under a new key. Each image gets the next id.
    pub fn insert_raw_image(&mut self, raw_image: ImageRaw) -> (r: Result<ResourceArc<ImageResource>, VkError>)
        requires
            old(self).images.wf(),
            // No other image is live under the new key's hash.
            ({
                let key = ImageKey { id: old(self).next_image_id };
                is_live(old(self).images@, image_key_hash(key)) ==> old(self).images@.resources[image_key_hash(key)].image_key == Some(key)
            }),
        ensures
            final(self).images.wf(),
            r is Ok ==> final(self).images@.resources[r->Ok_0.spec_hash()].image_key == Some(ImageKey { id: old(self).next_image_id }),
            final(self).next_image_id == wrapping_inc(old(self).next_image_id),
            r is Ok ==> {
                let h = r->Ok_0.spec_hash();
                &&& handed_out(old(self).images@, final(self).images@, h)
                &&& !is_live(old(self).images@, h) ==> final(self).images@.resources[h].image == raw_image
                    && final(self).images@.resources[h].image_key == Some(ImageKey { id: old(self).next_image_id })
            },
            r is Err ==> r->Err_0 == VkError(VK_ERROR_TOO_MANY_OBJECTS),
            ({
                let h = image_key_hash(ImageKey { id: old(self).next_image_id });
                &&& get_or_create_step(counted_use(old(self).images@), h, final(self).images@, r)
                &&& r is Err <==> is_live(old(self).images@, h) && old(self).images@.strong_counts[h] == u64::MAX
            }),
    {
        let image_id = self.next_image_id;
        self.next_image_id = self.next_image_id.wrapping_add(1);
        let image_key = ImageKey { id: image_id };
        let hash = hash_image_key(&image_key);
        let make = move || -> (m: Result<ImageResource, VkError>)
            ensures
                m == Ok::<ImageResource, VkError>(ImageResource { image: raw_image, image_key: Some(image_key) }),
        {
            Ok(ImageResource { image: raw_image, image_key: Some(image_key) })
        };
        self.images.get_or_create(hash, &image_key, make)
    }

    /// Adds a buffer under a new key. Each buffer gets the next id; the key is returned with
    /// the handle.
    pub fn insert_buffer(&mut self, buffer: BufferRaw) -> (r: Result<(BufferKey, ResourceArc<BufferRaw>), VkError>)
        requires
            old(self).buffers.wf(),
        ensures
            final(self).buffers.wf(),
            final(self).next_buffer_id == wrapping_inc(old(self).next_buffer_id),
            r is Ok ==> {
                let h = r->Ok_0.1.spec_hash();
                &&& r->Ok_0.0 == (BufferKey { id: old(self).next_buffer_id })
                &&& handed_out(old(self).buffers@, final(self).buffers@, h)
                &&& !is_live(old(self).buffers@, h) ==> final(self).buffers@.resources[h] == buffer
            },
            r is Err ==> r->Err_0 == VkError(VK_ERROR_TOO_MANY_OBJECTS),
            ({
                let h = buffer_key_hash(BufferKey { id: old(self).next_buffer_id });
                &&& r is Ok ==> r->Ok_0.1.spec_hash() == h
                &&& r is Err <==> is_live(old(self).buffers@, h) && old(self).buffers@.strong_counts[h] == u64::MAX
                &&& is_live(old(self).buffers@, h) && old(self).buffers@.strong_counts[h] < u64::MAX
                    ==> final(self).buffers@ == (LookupModel { strong_counts: old(self).buffers@.strong_counts.insert(h, (old(self).buffers@.strong_counts[h] + 1) as u64), ..counted_use(old(self).buffers@) })
                &&& is_live(old(self).buffers@, h) && old(self).buffers@.strong_counts[h] == u64::MAX ==> final(self).buffers@ == counted_use(old(self).buffers@)
                &&& !is_live(old(self).buffers@, h) ==> final(self).buffers@ == (LookupModel {
                    resources: spec_handle_dropped(counted_use(old(self).buffers@)).resources.insert(h, buffer),
                    strong_counts: spec_handle_dropped(counted_use(old(self).buffers@)).strong_counts.insert(h, 1),
                    ..spec_handle_dropped(counted_use(old(self).buffers@))
                })
            }),
    {
        let buffer_id = self.next_buffer_id;
        self.next_buffer_id = self.next_buffer_id.wrapping_add(1);
        let buffer_key = BufferKey { id: buffer_id };
        let hash = hash_buffer_key(&buffer_key);
        let make = move || -> (m: Result<BufferRaw, VkError>)
            ensures
                m == Ok::<BufferRaw, VkError>(buffer),
        {
            Ok(buffer)
        };
        let arc = self.buffers.get_or_create(hash, &buffer_key, make)?;
        Ok((buffer_key, arc))
    }

    /// The view of a keyed image with this meta, created by `create` when none is live. Images
    /// without a key (dynamic images) cannot have views here. A new view keeps a handle to its
    /// image.
    pub fn get_or_create_image_view<F>(
        &mut self,
        image: &ResourceArc<ImageResource>,
        image_view_meta: &ImageViewMeta,
        create: F,
    ) -> (r: Result<ResourceArc<ImageViewResource>, VkError>)
        where
            F: FnOnce() -> Result<u64, VkError>,
        requires
            old(self).images.wf(),
            old(self).image_views.wf(),
            create.requires(()),
            // No other key's view is live under this key's hash.
            (old(self).images@.resources.contains_key(image.spec_hash())
                && old(self).images@.resources[image.spec_hash()].image_key is Some) ==> ({
                let key = ImageViewKey { image_key: old(self).images@.resources[image.spec_hash()].image_key->0, image_view_meta: *image_view_meta };
                let h = image_view_key_hash(key);
                is_live(old(self).image_views@, h) ==> old(self).image_views@.resources[h].image_view_key == Some(key)
            }),
        ensures
            final(self).images.wf(),
            final(self).image_views.wf(),
            r is Ok ==> final(self).image_views@.resources[r->Ok_0.spec_hash()].image_view_key == Some(ImageViewKey {
                image_key: old(self).images@.resources[image.spec_hash()].image_key->0,
                image_view_meta: *image_view_meta,
            }),
            (!old(self).images@.resources.contains_key(image.spec_hash())
                || old(self).images@.resources[image.spec_hash()].image_key is None) ==> {
                &&& r == Err::<ResourceArc<ImageViewResource>, VkError>(VkError(VK_ERROR_UNKNOWN))
                &&& final(self).images@ == old(self).images@
                &&& final(self).image_views@ == old(self).image_views@
            },
            (old(self).images@.resources.contains_key(image.spec_hash())
                && old(self).images@.resources[image.spec_hash()].image_key is Some) ==> {
                let image_key = old(self).images@.resources[image.spec_hash()].image_key->0;
                let key = ImageViewKey { image_key, image_view_meta: *image_view_meta };
                let h = image_view_key_hash(key);
                let hi = image.spec_hash();
                let iv0 = old(self).image_views@;
                let im0 = old(self).images@;
                &&& (is_live(iv0, h) && iv0.strong_counts[h] < u64::MAX) ==> {
                    &&& r is Ok
                    &&& r->Ok_0.spec_hash() == h
                    &&& final(self).image_views@ == (LookupModel { strong_counts: iv0.strong_counts.insert(h, (iv0.strong_counts[h] + 1) as u64), ..counted_use(iv0) })
                    &&& final(self).images@ == im0
                }
                &&& (is_live(iv0, h) && iv0.strong_counts[h] == u64::MAX) ==> {
                    &&& r == Err::<ResourceArc<ImageViewResource>, VkError>(VkError(VK_ERROR_TOO_MANY_OBJECTS))
                    &&& final(self).image_views@ == iv0
                    &&& final(self).images@ == im0
                }
                &&& (!is_live(iv0, h) && !(is_live(im0, hi) && im0.strong_counts[hi] < u64::MAX)) ==> {
                    &&& r == Err::<ResourceArc<ImageViewResource>, VkError>(VkError(VK_ERROR_TOO_MANY_OBJECTS))
                    &&& final(self).image_views@ == iv0
                    &&& final(self).images@ == im0
                }
                &&& (!is_live(iv0, h) && is_live(im0, hi) && im0.strong_counts[hi] < u64::MAX) ==> match r {
                    Ok(arc) => {
                        let dropped = spec_handle_dropped(counted_use(iv0));
                        let v = final(self).image_views@.resources[h];
                        &&& arc.spec_hash() == h
                        &&& create.ensures((), Ok::<u64, VkError>(v.image_view))
                        &&& v.image_view_key == Some(key)
                        &&& v.image.spec_hash() == hi
                        &&& final(self).image_views@ == (LookupModel {
                            resources: dropped.resources.insert(h, v),
                            strong_counts: dropped.strong_counts.insert(h, 1),
                            ..dropped
                        })
                        &&& final(self).images@ == (LookupModel { strong_counts: im0.strong_counts.insert(hi, (im0.strong_counts[hi] + 1) as u64), ..im0 })
                    },
                    Err(e) => {
                        &&& create.ensures((), Err::<u64, VkError>(e))
                        &&& final(self).image_views@ == iv0
                        &&& final(self).images@ == im0
                    },
                }
            },
            r is Ok ==> {
                let h = r->Ok_0.spec_hash();
                let image_key = old(self).images@.resources[image.spec_hash()].image_key->0;
                &&& handed_out(old(self).image_views@, final(self).image_views@, h)
                &&& !is_live(old(self).image_views@, h) ==> {
                    &&& create.ensures((), Ok::<u64, VkError>(final(self).image_views@.resources[h].image_view))
                    &&& final(self).image_views@.resources[h].image_view_key == Some(ImageViewKey { image_key, image_view_meta: *image_view_meta })
                    &&& final(self).image_views@.resources[h].image.spec_hash() == image.spec_hash()
                }
            },
            r is Err ==> r->Err_0 == VkError(VK_ERROR_TOO_MANY_OBJECTS) || r->Err_0 == VkError(VK_ERROR_UNKNOWN)
                || create.ensures((), Err::<u64, VkError>(r->Err_0)),
    {
        let image_key = match self.images.resource(image) {
            Some(resource) => match resource.image_key {
                Some(k) => k,
                None => {
                    return Err(VkError(VK_ERROR_UNKNOWN));
                },
            },
            None => {
                return Err(VkError(VK_ERROR_UNKNOWN));
            },
        };
        let image_view_key = ImageViewKey { image_key, image_view_meta: *image_view_meta };
        let hash = hash_image_view_key(&image_view_key);
        if self.image_views.is_live_hash(hash) {
            if self.image_views.strong_count(hash) == u64::MAX {
                return Err(VkError(VK_ERROR_TOO_MANY_OBJECTS));
            }
            // The view exists: no new handle to the image is needed.
            return match self.image_views.get(hash, &image_view_key) {
                Some(arc) => Ok(arc),
                None => Err(VkError(VK_ERROR_TOO_MANY_OBJECTS)),
            };
        }
        let ghost im0 = self.images@;
        let image_arc = match self.images.clone_arc(image) {
            Some(a) => a,
            None => {
                return Err(VkError(VK_ERROR_TOO_MANY_OBJECTS));
            },
        };
        let image_view = match create() {
            Ok(raw) => raw,
            Err(e) => {
                // The new handle to the image goes again, leaving the images as they were.
                self.images.drop_arc(image_arc);
                proof {
                    assert(self.images@.strong_counts =~= im0.strong_counts);
                }
                return Err(e);
            },
        };
        let ghost image_hash = image.spec_hash();
        let made = ImageViewResource { image_view, image: image_arc, image_view_key: Some(image_view_key) };
        let make = move || -> (m: Result<ImageViewResource, VkError>)
            ensures
                m == Ok::<ImageViewResource, VkError>(made),
        {
            Ok(made)
        };
        self.image_views.get_or_create(hash, &image_view_key, make)
    }
}


/// Drops every handle of `arcs`, the last one first.
fn drop_arcs<KeyT, ResourceT>(lookup: &mut ResourceLookup<KeyT, ResourceT>, arcs: Vec<ResourceArc<ResourceT>>)
    requires
        old(lookup).wf(),
    ensures
        final(lookup).wf(),
        final(lookup)@ == spec_drop_all(old(lookup)@, arc_hashes(arcs@)),
{
    let ghost target = spec_drop_all(lookup@, arc_hashes(arcs@));
    let mut arcs = arcs;
    let n = arcs.len();
    for i in 0..n
        invariant
            lookup.wf(),
            arcs@.len() == n - i,
            spec_drop_all(lookup@, arc_hashes(arcs@)) == target,
    {
        let ghost before = arcs@;
        let a = arcs.pop().unwrap();
        proof {
            assert(arc_hashes(before).drop_last() =~= arc_hashes(arcs@));
            assert(arc_hashes(before).last() == a.spec_hash());
        }
        lookup.drop_arc(a);
    }
    proof {
        assert(arc_hashes(arcs@) =~= Seq::<u64>::empty());
    }
}

/// A second handle to each of `arcs`, or `None` (and nothing changed but the lookup's
/// bookkeeping) when one cannot be had.
fn clone_arcs<KeyT, ResourceT>(lookup: &mut ResourceLookup<KeyT, ResourceT>, arcs: &Vec<ResourceArc<ResourceT>>) -> (r: Option<Vec<ResourceArc<ResourceT>>>)
    requires
        old(lookup).wf(),
    ensures
        final(lookup).wf(),
        r is Some ==> r->0@.len() == arcs@.len()
            && forall|i: int| 0 <= i < arcs@.len() ==> (#[trigger] r->0@[i]).spec_hash() == arcs@[i].spec_hash(),
        match spec_clone_all(old(lookup)@, arc_hashes(arcs@)) {
            Some(m) => r is Some && final(lookup)@ == m,
            None => r is None && final(lookup)@ == old(lookup)@,
        },
{
    let ghost m0 = lookup@;
    let ghost hs = arc_hashes(arcs@);
    let mut clones: Vec<ResourceArc<ResourceT>> = Vec::new();
    let n = arcs.len();
    for i in 0..n
        invariant
            n == arcs@.len(),
            hs == arc_hashes(arcs@),
            m0 == old(lookup)@,
            lookup.wf(),
            clones@.len() == i,
            forall|j: int| 0 <= j < i ==> (#[trigger] clones@[j]).spec_hash() == arcs@[j].spec_hash(),
            spec_clone_all(m0, hs.take(i as int)) == Some(lookup@),
    {
        let ghost before = lookup@;
        proof {
            assert(hs.take(i + 1).drop_last() =~= hs.take(i as int));
            assert(hs.take(i + 1).last() == arcs@[i as int].spec_hash());
        }
        match lookup.clone_arc(&arcs[i]) {
            Some(a) => {
                clones.push(a);
            },
            None => {
                proof {
                    assert(lookup@ == before);
                    assert(!(is_live(before, arcs@[i as int].spec_hash()) && before.strong_counts[arcs@[i as int].spec_hash()] < u64::MAX));
                    assert(spec_clone_all(m0, hs.take(i + 1)) is None);
                    lemma_clone_all_fails_on(m0, hs, i + 1);
                    assert(arc_hashes(clones@) =~= hs.take(i as int));
                    lemma_drop_undoes_clone(m0, hs.take(i as int));
                }
                drop_arcs(lookup, clones);
                proof {
                    assert(lookup@ == m0);
                }
                return None;
            },
        }
    }
    proof {
        assert(hs.take(n as int) =~= hs);
    }
    Some(clones)
}

/// The renderpass was stored for this description and surface.
pub open spec fn renderpass_stored_for(res: RenderPassResource, dsc: RenderPassDescription, surface: SwapchainSurfaceInfo) -> bool {
    &&& res.renderpass_key.dsc.same_as(dsc)
    &&& res.renderpass_key.swapchain_surface_info == surface
}

/// The framebuffer was stored for this renderpass description, these view keys and this size.
pub open spec fn framebuffer_stored_for(res: FramebufferResource, dsc: RenderPassDescription, keys: Seq<ImageViewKey>, meta: FramebufferMeta) -> bool {
    &&& res.framebuffer_key.renderpass.same_as(dsc)
    &&& res.framebuffer_key.image_view_keys@ == keys
    &&& res.framebuffer_key.framebuffer_meta == meta
}

/// The material pass was stored for this pipeline layout, fixed-function state, shader module
/// metas and shader module keys.
pub open spec fn material_pass_stored_for(
    res: MaterialPassResource,
    pipeline_layout: PipelineLayout,
    fixed_function_state: FixedFunctionState,
    shader_module_metas: Vec<ShaderModuleMeta>,
    keys: Seq<ShaderModuleKey>,
) -> bool {
    &&& res.material_pass_key.pipeline_layout.same_as(pipeline_layout)
    &&& res.material_pass_key.fixed_function_state.encoded@ == fixed_function_state.encoded@
    &&& res.material_pass_key.shader_module_metas@ == shader_module_metas@
    &&& res.material_pass_key.shader_module_keys@ == keys
}

/// Every attachment is a view of the lookup that has a key.
pub open spec fn attachments_keyed(iv: LookupModel<ImageViewResource>, atts: Seq<ResourceArc<ImageViewResource>>) -> bool {
    forall|i: int| 0 <= i < atts.len() ==> iv.resources.contains_key(#[trigger] atts[i].spec_hash())
        && iv.resources[atts[i].spec_hash()].image_view_key is Some
}

/// The keys of the attachments' views, in order.
pub open spec fn attachment_view_keys(iv: LookupModel<ImageViewResource>, atts: Seq<ResourceArc<ImageViewResource>>) -> Seq<ImageViewKey> {
    atts.map_values(|a: ResourceArc<ImageViewResource>| iv.resources[a.spec_hash()].image_view_key->0)
}

impl ResourceLookupSet {
    /// The framebuffer of this renderpass and these keyed image views, created by `create`
    /// when none is live. The framebuffer keeps the renderpass handle and a handle to each view;
    /// when no new framebuffer is made, the renderpass handle is dropped.
    pub fn get_or_create_framebuffer<F>(
        &mut self,
        renderpass: ResourceArc<RenderPassResource>,
        attachments: &Vec<ResourceArc<ImageViewResource>>,
        framebuffer_meta: &FramebufferMeta,
        create: F,
    ) -> (r: Result<ResourceArc<FramebufferResource>, VkError>)
        where
            F: FnOnce() -> Result<u64, VkError>,
        requires
            old(self).render_passes.wf(),
            old(self).image_views.wf(),
            old(self).framebuffers.wf(),
            create.requires(()),
            old(self).render_passes@.resources.contains_key(renderpass.spec_hash()),
            attachments_keyed(old(self).image_views@, attachments@),
            // No other key's framebuffer is live under this key's hash.
            ({
                let dsc = old(self).render_passes@.resources[renderpass.spec_hash()].renderpass_key.dsc;
                let keys = attachment_view_keys(old(self).image_views@, attachments@);
                let h = framebuffer_key_hash(dsc, keys, *framebuffer_meta);
                is_live(old(self).framebuffers@, h)
                    ==> framebuffer_stored_for(old(self).framebuffers@.resources[h], dsc, keys, *framebuffer_meta)
            }),
        ensures
            final(self).render_passes.wf(),
            final(self).image_views.wf(),
            final(self).framebuffers.wf(),
            r is Ok ==> framebuffer_stored_for(
                final(self).framebuffers@.resources[r->Ok_0.spec_hash()],
                old(self).render_passes@.resources[renderpass.spec_hash()].renderpass_key.dsc,
                attachment_view_keys(old(self).image_views@, attachments@),
                *framebuffer_meta,
            ),
            ({
                let rph = renderpass.spec_hash();
                let rp0 = old(self).render_passes@;
                let iv0 = old(self).image_views@;
                let fb0 = old(self).framebuffers@;
                let keys = attachment_view_keys(iv0, attachments@);
                let h = framebuffer_key_hash(rp0.resources[rph].renderpass_key.dsc, keys, *framebuffer_meta);
                &&& get_or_create_step(counted_use(fb0), h, final(self).framebuffers@, r)
                &&& is_live(fb0, h) ==> final(self).render_passes@ == spec_drop(rp0, rph) && final(self).image_views@ == iv0
                &&& !is_live(fb0, h) ==> match r {
                    Ok(_) => {
                        let fb = final(self).framebuffers@.resources[h];
                        &&& create.ensures((), Ok::<u64, VkError>(fb.framebuffer))
                        &&& fb.renderpass.spec_hash() == rph
                        &&& arc_hashes(fb.attachments@) == arc_hashes(attachments@)
                        &&& fb.framebuffer_key.renderpass.same_as(rp0.resources[rph].renderpass_key.dsc)
                        &&& fb.framebuffer_key.image_view_keys@ == keys
                        &&& fb.framebuffer_key.framebuffer_meta == *framebuffer_meta
                        &&& final(self).render_passes@ == rp0
                        &&& spec_clone_all(iv0, arc_hashes(attachments@)) == Some(final(self).image_views@)
                    },
                    Err(e) => {
                        &&& final(self).render_passes@ == spec_drop(rp0, rph)
                        &&& final(self).image_views@ == iv0
                        &&& (create.ensures((), Err::<u64, VkError>(e))
                            || (e == VkError(VK_ERROR_TOO_MANY_OBJECTS) && spec_clone_all(iv0, arc_hashes(attachments@)) is None))
                    },
                }
            }),
    {
        let ghost iv0 = self.image_views@;
        let mut image_view_keys: Vec<ImageViewKey> = Vec::new();
        let n = attachments.len();
        for i in 0..n
            invariant
                n == attachments@.len(),
                self.image_views@ == iv0,
                attachments_keyed(iv0, attachments@),
                image_view_keys@ == attachment_view_keys(iv0, attachments@).take(i as int),
        {
            let k = self.image_views.resource(&attachments[i]).unwrap().image_view_key.unwrap();
            image_view_keys.push(k);
            proof {
                assert(attachment_view_keys(iv0, attachments@).take(i + 1)
                    =~= attachment_view_keys(iv0, attachments@).take(i as int).push(k));
            }
        }
        proof {
            assert(attachment_view_keys(iv0, attachments@).take(n as int) =~= attachment_view_keys(iv0, attachments@));
        }
        let rp_res = self.render_passes.resource(&renderpass).unwrap();
        let hash = hash_framebuffer_key(&rp_res.renderpass_key.dsc, &image_view_keys, framebuffer_meta);
        let framebuffer_key = FrameBufferKey {
            renderpass: rp_res.renderpass_key.dsc.duplicate(),
            image_view_keys: copy_vec(&image_view_keys),
            framebuffer_meta: *framebuffer_meta,
        };
        if self.framebuffers.is_live_hash(hash) {
            self.render_passes.drop_arc(renderpass);
            let none = || -> (m: Result<FramebufferResource, VkError>)
                ensures
                    m is Err,
            {
                Err(VkError(VK_ERROR_UNKNOWN))
            };
            return self.framebuffers.get_or_create(hash, &framebuffer_key, none);
        }
        let made: Result<FramebufferResource, VkError> = match create() {
            Ok(raw) => match clone_arcs(&mut self.image_views, attachments) {
                Some(arcs) => {
                    proof {
                        assert(arc_hashes(arcs@) =~= arc_hashes(attachments@));
                    }
                    Ok(FramebufferResource {
                        framebuffer: raw,
                        framebuffer_key: FrameBufferKey {
                            renderpass: framebuffer_key.renderpass.duplicate(),
                            image_view_keys,
                            framebuffer_meta: *framebuffer_meta,
                        },
                        renderpass,
                        attachments: arcs,
                    })
                },
                None => {
                    self.render_passes.drop_arc(renderpass);
                    Err(VkError(VK_ERROR_TOO_MANY_OBJECTS))
                },
            },
            Err(e) => {
                self.render_passes.drop_arc(renderpass);
                Err(e)
            },
        };
        let ghost made_g = made;
        let make = move || -> (m: Result<FramebufferResource, VkError>)
            ensures
                m == made_g,
        {
            made
        };
        self.framebuffers.get_or_create(hash, &framebuffer_key, make)
    }
}


/// Every handle refers to a shader module the lookup holds.
pub open spec fn shader_modules_held(sm: LookupModel<ShaderModuleResource>, arcs: Seq<ResourceArc<ShaderModuleResource>>) -> bool {
    forall|i: int| 0 <= i < arcs.len() ==> sm.resources.contains_key(#[trigger] arcs[i].spec_hash())
}

/// The keys of the shader modules, in order.
pub open spec fn shader_module_keys_of(sm: LookupModel<ShaderModuleResource>, arcs: Seq<ResourceArc<ShaderModuleResource>>) -> Seq<ShaderModuleKey> {
    arcs.map_values(|a: ResourceArc<ShaderModuleResource>| sm.resources[a.spec_hash()].shader_module_key)
}

/// The raw handles of the shader modules, in order.
pub open spec fn shader_module_objs_of(sm: LookupModel<ShaderModuleResource>, arcs: Seq<ResourceArc<ShaderModuleResource>>) -> Seq<u64> {
    arcs.map_values(|a: ResourceArc<ShaderModuleResource>| sm.resources[a.spec_hash()].shader_module)
}

impl ResourceLookupSet {
    /// The material pass of these shader modules, pipeline layout and fixed-function state. A
    /// new one keeps the handles it is given; otherwise they are dropped. Nothing is created on
    /// the GPU.
    pub fn get_or_create_material_pass(
        &mut self,
        shader_modules: Vec<ResourceArc<ShaderModuleResource>>,
        shader_module_metas: Vec<ShaderModuleMeta>,
        pipeline_layout: ResourceArc<PipelineLayoutResource>,
        fixed_function_state: FixedFunctionState,
    ) -> (r: Result<ResourceArc<MaterialPassResource>, VkError>)
        requires
            old(self).shader_modules.wf(),
            old(self).pipeline_layouts.wf(),
            old(self).material_passes.wf(),
            shader_modules_held(old(self).shader_modules@, shader_modules@),
            old(self).pipeline_layouts@.resources.contains_key(pipeline_layout.spec_hash()),
            // No other key's material pass is live under this key's hash.
            ({
                let pl = old(self).pipeline_layouts@.resources[pipeline_layout.spec_hash()].pipeline_layout_def;
                let keys = shader_module_keys_of(old(self).shader_modules@, shader_modules@);
                let h = material_pass_key_of_hash(pl, fixed_function_state, shader_module_metas@, keys);
                is_live(old(self).material_passes@, h)
                    ==> material_pass_stored_for(old(self).material_passes@.resources[h], pl, fixed_function_state, shader_module_metas, keys)
            }),
        ensures
            final(self).shader_modules.wf(),
            final(self).pipeline_layouts.wf(),
            final(self).material_passes.wf(),
            r is Ok ==> material_pass_stored_for(
                final(self).material_passes@.resources[r->Ok_0.spec_hash()],
                old(self).pipeline_layouts@.resources[pipeline_layout.spec_hash()].pipeline_layout_def,
                fixed_function_state,
                shader_module_metas,
                shader_module_keys_of(old(self).shader_modules@, shader_modules@),
            ),
            ({
                let plh = pipeline_layout.spec_hash();
                let sm0 = old(self).shader_modules@;
                let pl0 = old(self).pipeline_layouts@;
                let mp0 = old(self).material_passes@;
                let keys = shader_module_keys_of(sm0, shader_modules@);
                let h = material_pass_key_of_hash(pl0.resources[plh].pipeline_layout_def, fixed_function_state, shader_module_metas@, keys);
                &&& get_or_create_step(counted_use(mp0), h, final(self).material_passes@, r)
                &&& r is Ok <==> !(is_live(mp0, h) && mp0.strong_counts[h] == u64::MAX)
                &&& is_live(mp0, h) ==> {
                    &&& final(self).shader_modules@ == spec_drop_all(sm0, arc_hashes(shader_modules@))
                    &&& final(self).pipeline_layouts@ == spec_drop(pl0, plh)
                }
                &&& !is_live(mp0, h) ==> {
                    let mp = final(self).material_passes@.resources[h];
                    &&& final(self).shader_modules@ == sm0
                    &&& final(self).pipeline_layouts@ == pl0
                    &&& arc_hashes(mp.shader_modules@) == arc_hashes(shader_modules@)
                    &&& mp.shader_module_vk_objs@ == shader_module_objs_of(sm0, shader_modules@)
                    &&& mp.pipeline_layout.spec_hash() == plh
                    &&& mp.material_pass_key.shader_module_keys@ == keys
                    &&& mp.material_pass_key.shader_module_metas == shader_module_metas
                    &&& mp.material_pass_key.fixed_function_state == fixed_function_state
                    &&& mp.material_pass_key.pipeline_layout.same_as(pl0.resources[plh].pipeline_layout_def)
                }
            }),
    {
        let ghost sm0 = self.shader_modules@;
        let mut shader_module_keys: Vec<ShaderModuleKey> = Vec::new();
        let mut shader_module_vk_objs: Vec<u64> = Vec::new();
        let n = shader_modules.len();
        for i in 0..n
            invariant
                n == shader_modules@.len(),
                self.shader_modules@ == sm0,
                shader_modules_held(sm0, shader_modules@),
                shader_module_keys@ == shader_module_keys_of(sm0, shader_modules@).take(i as int),
                shader_module_vk_objs@ == shader_module_objs_of(sm0, shader_modules@).take(i as int),
        {
            let res = self.shader_modules.resource(&shader_modules[i]).unwrap();
            shader_module_keys.push(res.shader_module_key);
            shader_module_vk_objs.push(res.shader_module);
            proof {
                assert(shader_module_keys_of(sm0, shader_modules@).take(i + 1)
                    =~= shader_module_keys_of(sm0, shader_modules@).take(i as int).push(res.shader_module_key));
                assert(shader_module_objs_of(sm0, shader_modules@).take(i + 1)
                    =~= shader_module_objs_of(sm0, shader_modules@).take(i as int).push(res.shader_module));
            }
        }
        proof {
            assert(shader_module_keys_of(sm0, shader_modules@).take(n as int) =~= shader_module_keys_of(sm0, shader_modules@));
            assert(shader_module_objs_of(sm0, shader_modules@).take(n as int) =~= shader_module_objs_of(sm0, shader_modules@));
        }
        let layout = self.pipeline_layouts.resource(&pipeline_layout).unwrap();
        let hash = hash_material_pass_key_of(&layout.pipeline_layout_def, &fixed_function_state, &shader_module_metas, &shader_module_keys);
        // The lookup is only handed the key; it does not keep it.
        let material_pass_key = MaterialPassKey {
            pipeline_layout: layout.pipeline_layout_def.duplicate(),
            fixed_function_state: fixed_function_state.clone(),
            shader_module_metas: shader_module_metas.clone(),
            shader_module_keys: copy_vec(&shader_module_keys),
        };
        let key_for_resource = MaterialPassKey {
            pipeline_layout: layout.pipeline_layout_def.duplicate(),
            fixed_function_state,
            shader_module_metas,
            shader_module_keys,
        };
        if self.material_passes.is_live_hash(hash) {
            drop_arcs(&mut self.shader_modules, shader_modules);
            self.pipeline_layouts.drop_arc(pipeline_layout);
            let none = || -> (m: Result<MaterialPassResource, VkError>)
                ensures
                    m is Err,
            {
                Err(VkError(VK_ERROR_UNKNOWN))
            };
            return self.material_passes.get_or_create(hash, &material_pass_key, none);
        }
        let ghost made_g = MaterialPassResource {
            material_pass_key: key_for_resource,
            pipeline_layout,
            shader_modules,
            shader_module_vk_objs,
        };
        let make = move || -> (m: Result<MaterialPassResource, VkError>)
            ensures
                m == Ok::<MaterialPassResource, VkError>(made_g),
        {
            Ok(MaterialPassResource {
                material_pass_key: key_for_resource,
                pipeline_layout,
                shader_modules,
                shader_module_vk_objs,
            })
        };
        self.material_passes.get_or_create(hash, &material_pass_key, make)
    }

    /// The graphics pipelines of this material pass in this renderpass, created by `create`
    /// when none are live. They keep a handle to the material pass's pipeline layout and to the
    /// renderpass.
    pub fn get_or_create_graphics_pipeline<F>(
        &mut self,
        material_pass: &ResourceArc<MaterialPassResource>,
        renderpass: &ResourceArc<RenderPassResource>,
        create: F,
    ) -> (r: Result<ResourceArc<GraphicsPipelineResource>, VkError>)
        where
            F: FnOnce() -> Result<Vec<u64>, VkError>,
        requires
            old(self).material_passes.wf(),
            old(self).render_passes.wf(),
            old(self).pipeline_layouts.wf(),
            old(self).graphics_pipelines.wf(),
            create.requires(()),
            old(self).material_passes@.resources.contains_key(material_pass.spec_hash()),
            old(self).render_passes@.resources.contains_key(renderpass.spec_hash()),
        ensures
            final(self).material_passes.wf(),
            final(self).render_passes.wf(),
            final(self).pipeline_layouts.wf(),
            final(self).graphics_pipelines.wf(),
            final(self).material_passes == old(self).material_passes,
            ({
                let rph = renderpass.spec_hash();
                let mp = old(self).material_passes@.resources[material_pass.spec_hash()];
                let rk = old(self).render_passes@.resources[rph].renderpass_key;
                let plh = mp.pipeline_layout.spec_hash();
                let rp0 = old(self).render_passes@;
                let pl0 = old(self).pipeline_layouts@;
                let gp0 = old(self).graphics_pipelines@;
                let h = graphics_pipeline_key_hash(mp.material_pass_key, rk.dsc, rk.swapchain_surface_info);
                &&& get_or_create_step(counted_use(gp0), h, final(self).graphics_pipelines@, r)
                &&& is_live(gp0, h) ==> final(self).render_passes@ == rp0 && final(self).pipeline_layouts@ == pl0
                &&& !is_live(gp0, h) ==> match r {
                    Ok(_) => {
                        let gp = final(self).graphics_pipelines@.resources[h];
                        &&& create.ensures((), Ok::<Vec<u64>, VkError>(gp.pipelines))
                        &&& gp.renderpass.spec_hash() == rph
                        &&& gp.pipeline_layout.spec_hash() == plh
                        &&& final(self).render_passes@ == (LookupModel { strong_counts: rp0.strong_counts.insert(rph, (rp0.strong_counts[rph] + 1) as u64), ..rp0 })
                        &&& final(self).pipeline_layouts@ == (LookupModel { strong_counts: pl0.strong_counts.insert(plh, (pl0.strong_counts[plh] + 1) as u64), ..pl0 })
                    },
                    Err(e) => {
                        &&& final(self).render_passes@ == rp0
                        &&& final(self).pipeline_layouts@ == pl0
                        &&& (create.ensures((), Err::<Vec<u64>, VkError>(e))
                            || (e == VkError(VK_ERROR_TOO_MANY_OBJECTS)
                                && !(is_live(rp0, rph) && rp0.strong_counts[rph] < u64::MAX
                                    && is_live(pl0, plh) && pl0.strong_counts[plh] < u64::MAX)))
                    },
                }
            }),
    {
        let ghost rp0 = self.render_passes@;
        let ghost pl0 = self.pipeline_layouts@;
        let mp_res = self.material_passes.resource(material_pass).unwrap();
        let rp_res = self.render_passes.resource(renderpass).unwrap();
        let hash = hash_graphics_pipeline_key(
            &mp_res.material_pass_key,
            &rp_res.renderpass_key.dsc,
            &rp_res.renderpass_key.swapchain_surface_info,
        );
        // The lookup is only handed the key; it does not keep it.
        let pipeline_key = GraphicsPipelineKey {
            material_pass_key: mp_res.material_pass_key.clone(),
            renderpass_key: rp_res.renderpass_key.clone(),
        };
        if self.graphics_pipelines.is_live_hash(hash) {
            let none = || -> (m: Result<GraphicsPipelineResource, VkError>)
                ensures
                    m is Err,
            {
                Err(VkError(VK_ERROR_UNKNOWN))
            };
            return self.graphics_pipelines.get_or_create(hash, &pipeline_key, none);
        }
        let made: Result<GraphicsPipelineResource, VkError> = match create() {
            Ok(pipelines) => match self.render_passes.clone_arc(renderpass) {
                Some(renderpass_arc) => match self.pipeline_layouts.clone_arc(&mp_res.pipeline_layout) {
                    Some(layout_arc) => Ok(GraphicsPipelineResource { pipelines, pipeline_layout: layout_arc, renderpass: renderpass_arc }),
                    None => {
                        self.render_passes.drop_arc(renderpass_arc);
                        proof {
                            assert(self.render_passes@.strong_counts =~= rp0.strong_counts);
                        }
                        Err(VkError(VK_ERROR_TOO_MANY_OBJECTS))
                    },
                },
                None => Err(VkError(VK_ERROR_TOO_MANY_OBJECTS)),
            },
            Err(e) => Err(e),
        };
        let ghost made_g = made;
        let make = move || -> (m: Result<GraphicsPipelineResource, VkError>)
            ensures
                m == made_g,
        {
            made
        };
        self.graphics_pipelines.get_or_create(hash, &pipeline_key, make)
    }
}

/// Entry `i` is the first recorded for description `def`.
pub open spec fn first_recorded(s: Seq<(Sampler, ResourceArc<u64>)>, def: Sampler, i: int) -> bool {
    &&& 0 <= i < s.len()
    &&& s[i].0 == def
    &&& forall|j: int| 0 <= j < i ==> s[j].0 != def
}

/// The samplers baked into the bindings, binding after binding.
pub open spec fn binding_samplers(bindings: Seq<DescriptorSetLayoutBinding>) -> Seq<Sampler>
    decreases bindings.len(),
{
    if bindings.len() == 0 {
        Seq::empty()
    } else {
        binding_samplers(bindings.drop_last()) + (if bindings.last().immutable_samplers is Some {
            bindings.last().immutable_samplers->0@
        } else {
            Seq::empty()
        })
    }
}

/// The samplers of the first bindings are never more than those of all of them.
proof fn lemma_binding_samplers_grow(bs: Seq<DescriptorSetLayoutBinding>, j: int)
    requires
        0 <= j <= bs.len(),
    ensures
        binding_samplers(bs.take(j)).len() <= binding_samplers(bs).len(),
    decreases bs.len() - j,
{
    if j == bs.len() {
        assert(bs.take(j) =~= bs);
    } else {
        lemma_binding_samplers_grow(bs, j + 1);
        assert(bs.take(j + 1).drop_last() =~= bs.take(j));
    }
}

/// The samplers of the bindings before `b`, and those of binding `b`, are among those of all
/// the bindings.
proof fn lemma_binding_samplers_prefix(bs: Seq<DescriptorSetLayoutBinding>, b: int)
    requires
        0 <= b < bs.len(),
    ensures
        bs[b].immutable_samplers is Some ==> binding_samplers(bs.take(b)).len() + bs[b].immutable_samplers->0@.len() <= binding_samplers(bs).len(),
        binding_samplers(bs.take(b)).len() <= binding_samplers(bs).len(),
{
    lemma_binding_samplers_grow(bs, b + 1);
    lemma_binding_samplers_grow(bs, b);
    assert(bs.take(b + 1).drop_last() =~= bs.take(b));
}

/// The descriptions of the recorded samplers, in order.
pub open spec fn recorded_defs(s: Seq<(Sampler, ResourceArc<u64>)>) -> Seq<Sampler> {
    s.map_values(|e: (Sampler, ResourceArc<u64>)| e.0)
}

/// The recorded samplers are those of `seen`, each once, each handle the one of its
/// description's hash.
pub open spec fn recorded_once(s: Seq<(Sampler, ResourceArc<u64>)>, seen: Seq<Sampler>) -> bool {
    &&& forall|j: int| 0 <= j < s.len() ==> (#[trigger] s[j]).1.spec_hash() == sampler_hash(s[j].0)
    &&& recorded_defs(s).no_duplicates()
    &&& recorded_defs(s).to_set() == seen.to_set()
}

/// The hashes of the recorded sampler handles, in order.
pub open spec fn recorded_hashes(s: Seq<(Sampler, ResourceArc<u64>)>) -> Seq<u64> {
    s.map_values(|e: (Sampler, ResourceArc<u64>)| e.1.spec_hash())
}

/// Records a sampler handle under its description; a handle already recorded for an equal
/// description is dropped and replaced, so each description is kept once.
fn record_sampler(
    samplers: &mut ResourceLookup<Sampler, u64>,
    recorded: &mut Vec<(Sampler, ResourceArc<u64>)>,
    def: Sampler,
    arc: ResourceArc<u64>,
)
    requires
        old(samplers).wf(),
    ensures
        final(samplers).wf(),
        (exists|i: int| 0 <= i < old(recorded)@.len() && old(recorded)@[i].0 == def) ==> {
            let i = choose|i: int| first_recorded(old(recorded)@, def, i);
            &&& final(recorded)@ == old(recorded)@.update(i, (def, arc))
            &&& final(samplers)@ == spec_drop(old(samplers)@, old(recorded)@[i].1.spec_hash())
        },
        !(exists|i: int| 0 <= i < old(recorded)@.len() && old(recorded)@[i].0 == def) ==> {
            &&& final(recorded)@ == old(recorded)@.push((def, arc))
            &&& final(samplers)@ == old(samplers)@
        },
{
    let ghost r0 = recorded@;
    let n = recorded.len();
    for i in 0..n
        invariant
            n == recorded@.len(),
            samplers.wf(),
            recorded@ == r0,
            samplers@ == old(samplers)@,
            r0 == old(recorded)@,
            forall|j: int| 0 <= j < i ==> r0[j].0 != def,
    {
        if recorded[i].0 == def {
            proof {
                assert(first_recorded(r0, def, i as int));
                let c = choose|c: int| first_recorded(r0, def, c);
                assert(c == i) by {
                    if c < i {
                        assert(r0[c].0 != def);
                    } else if c > i {
                        assert(r0[i as int].0 != def);
                    }
                }
            }
            let ghost old_entry = recorded@[i as int];
            let mut entry = (def, arc);
            recorded.set_and_swap(i, &mut entry);
            proof {
                assert(entry == old_entry);
            }
            samplers.drop_arc(entry.1);
            return;
        }
    }
    recorded.push((def, arc));
}

/// Drops every recorded sampler handle, the last one first.
fn drop_recorded_samplers(samplers: &mut ResourceLookup<Sampler, u64>, recorded: Vec<(Sampler, ResourceArc<u64>)>)
    requires
        old(samplers).wf(),
    ensures
        final(samplers).wf(),
        final(samplers)@ == spec_drop_all(old(samplers)@, recorded_hashes(recorded@)),
{
    let ghost target = spec_drop_all(samplers@, recorded_hashes(recorded@));
    let mut recorded = recorded;
    let n = recorded.len();
    for i in 0..n
        invariant
            samplers.wf(),
            recorded@.len() == n - i,
            spec_drop_all(samplers@, recorded_hashes(recorded@)) == target,
    {
        let ghost before = recorded@;
        let (_, a) = recorded.pop().unwrap();
        proof {
            assert(recorded_hashes(before).drop_last() =~= recorded_hashes(recorded@));
            assert(recorded_hashes(before).last() == a.spec_hash());
        }
        samplers.drop_arc(a);
    }
    proof {
        assert(recorded_hashes(recorded@) =~= Seq::<u64>::empty());
    }
}

/// Each live layout under the hash of one of `defs` was stored for it, and descriptions of
/// `defs` that share a hash have the same bindings.
pub open spec fn dsl_defs_unambiguous(m: LookupModel<DescriptorSetLayoutResource>, defs: Seq<DescriptorSetLayout>) -> bool {
    &&& forall|i: int| 0 <= i < defs.len() && is_live(m, descriptor_set_layout_hash(#[trigger] defs[i]))
        ==> m.resources[descriptor_set_layout_hash(defs[i])].descriptor_set_layout_def.same_as(defs[i])
    &&& forall|i: int, j: int| 0 <= i < defs.len() && 0 <= j < defs.len()
        && descriptor_set_layout_hash(#[trigger] defs[i]) == descriptor_set_layout_hash(#[trigger] defs[j])
        ==> defs[i].same_as(defs[j])
}

/// Raw layout handle `j` is that of the live layout of description `defs[j]`.
pub open spec fn layout_live_match(raws: Seq<u64>, defs: Seq<DescriptorSetLayout>, m: LookupModel<DescriptorSetLayoutResource>, j: int) -> bool {
    &&& is_live(m, descriptor_set_layout_hash(defs[j]))
    &&& raws[j] == m.resources[descriptor_set_layout_hash(defs[j])].descriptor_set_layout
}

/// The samplers of the bindings of all the layouts, counted with repeats.
pub open spec fn total_samplers(defs: Seq<DescriptorSetLayout>) -> nat
    decreases defs.len(),
{
    if defs.len() == 0 {
        0
    } else {
        total_samplers(defs.drop_last()) + binding_samplers(defs.last().descriptor_set_layout_bindings@).len()
    }
}

/// The samplers of the layouts before `i`, and those of layout `i`, are among those of all of
/// them.
proof fn lemma_total_samplers_prefix(defs: Seq<DescriptorSetLayout>, i: int, j: int)
    requires
        0 <= i < j <= defs.len(),
    ensures
        total_samplers(defs.take(i)) + binding_samplers(defs[i].descriptor_set_layout_bindings@).len() <= total_samplers(defs.take(j)),
    decreases j - i,
{
    assert(defs.take(i + 1).drop_last() =~= defs.take(i));
    if j > i + 1 {
        lemma_total_samplers_prefix(defs, i, j - 1);
        assert(defs.take(j).drop_last() =~= defs.take(j - 1));
    }
}

/// Getting or creating the layout of `defs[k]` under hash `hk`, which changes no other live
/// layout, keeps `defs` unambiguous.
proof fn lemma_keeps_unambiguous(
    d0: LookupModel<DescriptorSetLayoutResource>,
    d1: LookupModel<DescriptorSetLayoutResource>,
    defs: Seq<DescriptorSetLayout>,
    k: int,
    hk: u64,
)
    requires
        dsl_defs_unambiguous(d0, defs),
        0 <= k < defs.len(),
        hk == descriptor_set_layout_hash(defs[k]),
        is_live(d1, hk),
        d1.resources[hk].descriptor_set_layout_def.same_as(defs[k]),
        forall|h: u64| h != hk && #[trigger] is_live(d1, h) ==> is_live(d0, h) && d1.resources[h] == d0.resources[h],
    ensures
        dsl_defs_unambiguous(d1, defs),
{
    assert forall|i: int| 0 <= i < defs.len() && is_live(d1, descriptor_set_layout_hash(#[trigger] defs[i]))
        implies d1.resources[descriptor_set_layout_hash(defs[i])].descriptor_set_layout_def.same_as(defs[i]) by {
        if descriptor_set_layout_hash(defs[i]) == hk {
            assert(defs[k].same_as(defs[i]));
            DescriptorSetLayout::lemma_same_as_transitive(d1.resources[hk].descriptor_set_layout_def, defs[k], defs[i]);
        } else {
            assert(is_live(d0, descriptor_set_layout_hash(defs[i])));
        }
    }
}

/// Every recorded sampler handle refers to a live sampler.
pub open spec fn held_live(rec: Seq<(Sampler, ResourceArc<u64>)>, m: LookupModel<u64>) -> bool {
    forall|j: int| 0 <= j < rec.len() ==> is_live(m, #[trigger] rec[j].1.spec_hash())
}

/// Raw sampler handle `k` given for binding `b` is that of the live sampler of its description.
pub open spec fn obj_live_match(objs: Seq<Option<Vec<u64>>>, bindings: Seq<DescriptorSetLayoutBinding>, m: LookupModel<u64>, b: int, k: int) -> bool {
    let h = sampler_hash(bindings[b].immutable_samplers->0@[k]);
    &&& is_live(m, h)
    &&& objs[b]->0@[k] == m.resources[h]
}

/// Each raw sampler handle given for a binding is that of the live sampler of its description.
pub open spec fn objs_live_match(objs: Seq<Option<Vec<u64>>>, bindings: Seq<DescriptorSetLayoutBinding>, m: LookupModel<u64>) -> bool {
    forall|b: int, k: int| 0 <= b < objs.len() && objs[b] is Some && 0 <= k < objs[b]->0@.len()
        ==> #[trigger] obj_live_match(objs, bindings, m, b, k)
}

/// Raw sampler handle `j` is that of the live sampler of description `defs[j]`.
pub open spec fn raw_live_match(raws: Seq<u64>, defs: Seq<Sampler>, m: LookupModel<u64>, j: int) -> bool {
    &&& is_live(m, sampler_hash(defs[j]))
    &&& raws[j] == m.resources[sampler_hash(defs[j])]
}

/// Every live sampler of `m` is still live in `m1`, unchanged.
pub open spec fn keeps_live(m: LookupModel<u64>, m1: LookupModel<u64>) -> bool {
    forall|h: u64| #[trigger] is_live(m, h) ==> is_live(m1, h) && m1.resources[h] == m.resources[h]
}

/// Handing out a sampler keeps every live sampler and makes its own live, with one more
/// handle if it was live already.
proof fn lemma_sampler_step(s0: LookupModel<u64>, s1: LookupModel<u64>, hs: u64, r: Result<ResourceArc<u64>, VkError>)
    requires
        lookup_wf(s0),
        get_or_create_step(counted_use(s0), hs, s1, r),
        r is Ok,
    ensures
        keeps_live(s0, s1),
        is_live(s1, hs),
        is_live(s0, hs) ==> s1.strong_counts[hs] == s0.strong_counts[hs] + 1,
{
    let c = counted_use(s0);
    assert(lookup_wf(c));
    assert forall|h: u64| #[trigger] is_live(s0, h) implies is_live(s1, h) && s1.resources[h] == s0.resources[h] by {
        if !is_live(s0, hs) {
            lemma_dropped_keeps_live(c, h);
        }
    }
}

/// `objs` has, for each binding, the raw handles of its immutable samplers, one per sampler,
/// or nothing when it has none.
pub open spec fn sampler_objs_fit(objs: Seq<Option<Vec<u64>>>, bindings: Seq<DescriptorSetLayoutBinding>) -> bool {
    &&& objs.len() == bindings.len()
    &&& forall|b: int| 0 <= b < bindings.len() ==> ((#[trigger] objs[b]) is Some <==> bindings[b].immutable_samplers is Some)
    &&& forall|b: int| 0 <= b < bindings.len() && (#[trigger] objs[b]) is Some
        ==> objs[b]->0@.len() == bindings[b].immutable_samplers->0@.len()
}

impl ResourceLookupSet {
    /// The descriptor set layout of this description, created when none is live. The samplers
    /// baked into its bindings are got or created first (by `create_sampler`), and the layout
    /// keeps one handle per distinct sampler; `create_layout` is given the raw sampler handles
    /// of each binding. When a sampler cannot be had, no layout is made.
    pub fn get_or_create_descriptor_set_layout<CS, CL>(
        &mut self,
        descriptor_set_layout_def: &DescriptorSetLayout,
        create_sampler: &CS,
        create_layout: CL,
    ) -> (r: Result<ResourceArc<DescriptorSetLayoutResource>, VkError>)
        where
            CS: Fn(&Sampler) -> Result<u64, VkError>,
            CL: FnOnce(&Vec<Option<Vec<u64>>>) -> Result<u64, VkError>,
        requires
            old(self).samplers.wf(),
            old(self).descriptor_set_layouts.wf(),
            forall|s: &Sampler| create_sampler.requires((s,)),
            forall|v: &Vec<Option<Vec<u64>>>| create_layout.requires((v,)),
            // No other description's layout is live under this description's hash.
            ({
                let h = descriptor_set_layout_hash(*descriptor_set_layout_def);
                is_live(old(self).descriptor_set_layouts@, h)
                    ==> old(self).descriptor_set_layouts@.resources[h].descriptor_set_layout_def.same_as(*descriptor_set_layout_def)
            }),
        ensures
            final(self).samplers.wf(),
            final(self).descriptor_set_layouts.wf(),
            final(self).pipeline_layouts == old(self).pipeline_layouts,
            r is Ok ==> final(self).descriptor_set_layouts@.resources[r->Ok_0.spec_hash()].descriptor_set_layout_def.same_as(*descriptor_set_layout_def),
            // The layouts gain at most one handle, each sampler at most one per sampler of the bindings
            forall|h: u64| #[trigger] count_of(final(self).descriptor_set_layouts@, h) <= count_of(old(self).descriptor_set_layouts@, h) + 1,
            forall|h: u64| #[trigger] count_of(final(self).samplers@, h)
                <= count_of(old(self).samplers@, h) + binding_samplers(descriptor_set_layout_def.descriptor_set_layout_bindings@).len(),
            ({
                let h = descriptor_set_layout_hash(*descriptor_set_layout_def);
                let d0 = old(self).descriptor_set_layouts@;
                let bindings = descriptor_set_layout_def.descriptor_set_layout_bindings@;
                &&& r is Ok ==> r->Ok_0.spec_hash() == h
                &&& (is_live(d0, h) && d0.strong_counts[h] < u64::MAX) ==> {
                    &&& r is Ok
                    &&& final(self).descriptor_set_layouts@ == (LookupModel { strong_counts: d0.strong_counts.insert(h, (d0.strong_counts[h] + 1) as u64), ..counted_use(d0) })
                    &&& final(self).samplers == old(self).samplers
                }
                &&& (is_live(d0, h) && d0.strong_counts[h] == u64::MAX) ==> {
                    &&& r == Err::<ResourceArc<DescriptorSetLayoutResource>, VkError>(VkError(VK_ERROR_TOO_MANY_OBJECTS))
                    &&& final(self).descriptor_set_layouts@ == counted_use(d0)
                    &&& final(self).samplers == old(self).samplers
                }
                &&& !is_live(d0, h) ==> {
                    ||| {
                        // A sampler could not be had: no layout is made
                        &&& r is Err
                        &&& final(self).descriptor_set_layouts@ == counted_use(d0)
                        &&& exists|b: int, k: int|
                            #![trigger bindings[b].immutable_samplers->0@[k]]
                            0 <= b < bindings.len() && bindings[b].immutable_samplers is Some
                            && 0 <= k < bindings[b].immutable_samplers->0@.len() && {
                                ||| create_sampler.ensures((&bindings[b].immutable_samplers->0@[k],), Err::<u64, VkError>(r->Err_0))
                                ||| r->Err_0 == VkError(VK_ERROR_TOO_MANY_OBJECTS)
                                    && count_of(old(self).samplers@, sampler_hash(bindings[b].immutable_samplers->0@[k]))
                                        + binding_samplers(bindings).len() >= u64::MAX
                            }
                    }
                    ||| exists|objs: Vec<Option<Vec<u64>>>| {
                        &&& #[trigger] sampler_objs_fit(objs@, bindings)
                        &&& get_or_create_step(counted_use(counted_use(d0)), h, final(self).descriptor_set_layouts@, r)
                        &&& match r {
                            Ok(_) => {
                                let res = final(self).descriptor_set_layouts@.resources[h];
                                &&& create_layout.ensures((&objs,), Ok::<u64, VkError>(res.descriptor_set_layout))
                                &&& res.descriptor_set_layout_def.same_as(*descriptor_set_layout_def)
                                // The raw handles given were those of the bindings' samplers, which are live
                                &&& objs_live_match(objs@, bindings, final(self).samplers@)
                                // One handle per distinct sampler of the bindings
                                &&& exists|ds: Seq<Sampler>| {
                                    &&& #[trigger] ds.no_duplicates()
                                    &&& ds.to_set() == binding_samplers(bindings).to_set()
                                    &&& arc_hashes(res.immutable_samplers@) == ds.map_values(|d: Sampler| sampler_hash(d))
                                }
                            },
                            Err(e) => create_layout.ensures((&objs,), Err::<u64, VkError>(e)),
                        }
                    }
                }
            }),
    {
        let hash = hash_descriptor_set_layout(descriptor_set_layout_def);
        match self.descriptor_set_layouts.get(hash, descriptor_set_layout_def) {
            Some(arc) => {
                return Ok(arc);
            },
            None => {},
        }
        if self.descriptor_set_layouts.is_live_hash(hash) {
            return Err(VkError(VK_ERROR_TOO_MANY_OBJECTS));
        }
        let ghost dsl0 = self.descriptor_set_layouts@;
        proof {
            assert(dsl0 == counted_use(old(self).descriptor_set_layouts@));
        }
        // Each distinct sampler is kept once, so that none is destroyed while the layout lives.
        let mut recorded: Vec<(Sampler, ResourceArc<u64>)> = Vec::new();
        let mut vk_objs: Vec<Option<Vec<u64>>> = Vec::new();
        let bindings = &descriptor_set_layout_def.descriptor_set_layout_bindings;
        let nb = bindings.len();
        proof {
            assert(bindings@.take(0) =~= Seq::<DescriptorSetLayoutBinding>::empty());
            assert(recorded_defs(recorded@).to_set() =~= binding_samplers(bindings@.take(0)).to_set());
        }
        for b in 0..nb
            invariant
                nb == bindings@.len(),
                bindings@ == descriptor_set_layout_def.descriptor_set_layout_bindings@,
                self.samplers.wf(),
                self.descriptor_set_layouts@ == dsl0,
                dsl0 == counted_use(old(self).descriptor_set_layouts@),
                hash.0 == descriptor_set_layout_hash(*descriptor_set_layout_def),
                self.descriptor_set_layouts.wf(),
                self.pipeline_layouts == old(self).pipeline_layouts,
                !is_live(dsl0, hash.0),
                forall|s: &Sampler| create_sampler.requires((s,)),
                vk_objs@.len() == b,
                sampler_objs_fit(vk_objs@, bindings@.take(b as int)),
                recorded_once(recorded@, binding_samplers(bindings@.take(b as int))),
                held_live(recorded@, self.samplers@),
                objs_live_match(vk_objs@, bindings@, self.samplers@),
                forall|h: u64| #[trigger] count_of(self.samplers@, h)
                    <= count_of(old(self).samplers@, h) + binding_samplers(bindings@.take(b as int)).len(),
        {
            match &bindings[b].immutable_samplers {
                Some(defs) => {
                    let mut raws: Vec<u64> = Vec::new();
                    let ns = defs.len();
                    for k in 0..ns
                        invariant
                            ns == defs@.len(),
                            nb == bindings@.len(),
                            bindings@ == descriptor_set_layout_def.descriptor_set_layout_bindings@,
                            raws@.len() == k,
                            self.samplers.wf(),
                            self.descriptor_set_layouts@ == dsl0,
                            dsl0 == counted_use(old(self).descriptor_set_layouts@),
                            hash.0 == descriptor_set_layout_hash(*descriptor_set_layout_def),
                            !is_live(dsl0, hash.0),
                            self.descriptor_set_layouts.wf(),
                            self.pipeline_layouts == old(self).pipeline_layouts,
                            forall|s: &Sampler| create_sampler.requires((s,)),
                            recorded_once(recorded@, binding_samplers(bindings@.take(b as int)) + defs@.take(k as int)),
                            held_live(recorded@, self.samplers@),
                            vk_objs@.len() == b,
                            b < bindings@.len(),
                            bindings@[b as int].immutable_samplers == Some(*defs),
                            objs_live_match(vk_objs@, bindings@, self.samplers@),
                            forall|j: int| 0 <= j < k ==> #[trigger] raw_live_match(raws@, defs@, self.samplers@, j),
                            forall|h: u64| #[trigger] count_of(self.samplers@, h)
                                <= count_of(old(self).samplers@, h) + binding_samplers(bindings@.take(b as int)).len() + k,
                    {
                        let sd = &defs[k];
                        let ghost s0 = self.samplers@;
                        let ghost objs_at = vk_objs@;
                        proof {
                            self.samplers.lemma_wf_model();
                            assert(objs_live_match(objs_at, bindings@, s0));
                        }
                        let make = || -> (m: Result<u64, VkError>)
                            requires
                                create_sampler.requires((sd,)),
                            ensures
                                create_sampler.ensures((sd,), m),
                        {
                            create_sampler(sd)
                        };
                        let arc = match self.get_or_create_sampler(sd, make) {
                            Ok(a) => a,
                            Err(e) => {
                                let ghost s1 = self.samplers@;
                                proof {
                                    let hs = sampler_hash(*sd);
                                    lemma_binding_samplers_prefix(bindings@, b as int);
                                    assert(defs@[k as int] == bindings@[b as int].immutable_samplers->0@[k as int]);
                                    let total = binding_samplers(bindings@).len();
                                    let before = binding_samplers(bindings@.take(b as int)).len();
                                    assert(before + ns <= total);
                                    let sk = bindings@[b as int].immutable_samplers->0@[k as int];
                                    assert(sk == *sd);
                                    if is_live(s0, hs) && s0.strong_counts[hs] == u64::MAX {
                                        assert(count_of(s0, hs) == u64::MAX);
                                        assert(count_of(s0, hs) <= count_of(old(self).samplers@, hs) + before + k);
                                        assert(e == VkError(VK_ERROR_TOO_MANY_OBJECTS));
                                        assert(count_of(old(self).samplers@, sampler_hash(sk)) + total >= u64::MAX);
                                    } else {
                                        assert(create_sampler.ensures((sd,), Err::<u64, VkError>(e)));
                                        assert(create_sampler.ensures((&sk,), Err::<u64, VkError>(e)));
                                    }
                                    lemma_step_adds_at_most_one(s0, hs, s1, Err::<ResourceArc<u64>, VkError>(e));
                                    lemma_drop_all_adds_none(s1, recorded_hashes(recorded@));
                                    assert forall|h: u64| #[trigger] count_of(spec_drop_all(s1, recorded_hashes(recorded@)), h)
                                        <= count_of(old(self).samplers@, h) + total by {
                                        assert(count_of(spec_drop_all(s1, recorded_hashes(recorded@)), h) <= count_of(s1, h));
                                        assert(count_of(s1, h) <= count_of(s0, h) + 1);
                                        assert(count_of(s0, h) <= count_of(old(self).samplers@, h) + before + k);
                                    }
                                }
                                let ghost rh = recorded_hashes(recorded@);
                                drop_recorded_samplers(&mut self.samplers, recorded);
                                proof {
                                    assert(self.samplers@ == spec_drop_all(s1, rh));
                                    assert forall|h: u64| #[trigger] count_of(self.samplers@, h)
                                        <= count_of(old(self).samplers@, h) + binding_samplers(bindings@).len() by {
                                        assert(count_of(spec_drop_all(s1, rh), h) <= count_of(old(self).samplers@, h) + binding_samplers(bindings@).len());
                                    }
                                    let sk = bindings@[b as int].immutable_samplers->0@[k as int];
                                    assert(create_sampler.ensures((&sk,), Err::<u64, VkError>(e))
                                        || (e == VkError(VK_ERROR_TOO_MANY_OBJECTS)
                                            && count_of(old(self).samplers@, sampler_hash(sk)) + binding_samplers(bindings@).len() >= u64::MAX));
                                }
                                return Err(e);
                            },
                        };
                        let ghost hs = arc.spec_hash();
                        let ghost s1 = self.samplers@;
                        proof {
                            lemma_sampler_step(s0, s1, hs, Ok::<ResourceArc<u64>, VkError>(arc));
                            lemma_step_adds_at_most_one(s0, sampler_hash(*sd), s1, Ok::<ResourceArc<u64>, VkError>(arc));
                            self.samplers.lemma_wf_model();
                        }
                        // The sampler just handed out is live, so the lookup holds it.
                        let raw = *self.samplers.resource(&arc).unwrap();
                        let ghost raws0 = raws@;
                        raws.push(raw);
                        let ghost seen = binding_samplers(bindings@.take(b as int)) + defs@.take(k as int);
                        let ghost r0 = recorded@;
                        record_sampler(&mut self.samplers, &mut recorded, *sd, arc);
                        proof {
                            let seen1 = binding_samplers(bindings@.take(b as int)) + defs@.take(k + 1);
                            assert(seen1 =~= seen.push(*sd));
                            seen.lemma_push_to_set_commute(*sd);
                            if exists|i: int| 0 <= i < r0.len() && r0[i].0 == *sd {
                                let j = choose|j: int| 0 <= j < r0.len() && r0[j].0 == *sd;
                                assert(first_recorded(r0, *sd, j)) by {
                                    assert forall|k: int| 0 <= k < j implies r0[k].0 != *sd by {
                                        assert(recorded_defs(r0)[k] == r0[k].0);
                                        assert(recorded_defs(r0)[j] == r0[j].0);
                                    }
                                }
                                let i = choose|i: int| first_recorded(r0, *sd, i);
                                assert(recorded_defs(recorded@) =~= recorded_defs(r0));
                                assert(recorded_defs(r0)[i] == *sd);
                                assert(recorded_defs(r0).to_set().contains(*sd));
                                assert(seen1.to_set() =~= seen.to_set());
                            } else {
                                assert(recorded_defs(recorded@) =~= recorded_defs(r0).push(*sd));
                                recorded_defs(r0).lemma_push_to_set_commute(*sd);
                                assert(!recorded_defs(r0).contains(*sd)) by {
                                    if recorded_defs(r0).contains(*sd) {
                                        let i = choose|i: int| 0 <= i < recorded_defs(r0).len() && recorded_defs(r0)[i] == *sd;
                                        assert(r0[i].0 == *sd);
                                    }
                                }
                            }
                        }
                        let ghost s2 = self.samplers@;
                        proof {
                            assert forall|h: u64| #[trigger] count_of(s2, h)
                                <= count_of(old(self).samplers@, h) + binding_samplers(bindings@.take(b as int)).len() + k + 1 by {
                                assert(count_of(s1, h) <= count_of(s0, h) + 1);
                                assert(count_of(s2, h) <= count_of(s1, h));
                            }
                            // The samplers stay as they were but for one handle fewer to `sd`'s,
                            // which was handed out twice.
                            if exists|i: int| 0 <= i < r0.len() && r0[i].0 == *sd {
                                let i = choose|i: int| first_recorded(r0, *sd, i);
                                assert(r0[i].1.spec_hash() == sampler_hash(r0[i].0));
                                assert(is_live(s0, hs));
                                assert(s2 == spec_drop(s1, hs));
                            }
                            assert(keeps_live(s1, s2)) by {
                                assert forall|h: u64| #[trigger] is_live(s1, h) implies is_live(s2, h) && s2.resources[h] == s1.resources[h] by {
                                }
                            }
                            assert(is_live(s2, hs));
                            assert forall|j: int| 0 <= j < recorded@.len() implies is_live(s2, #[trigger] recorded@[j].1.spec_hash()) by {
                                if recorded@[j].1.spec_hash() != hs {
                                    if j < r0.len() {
                                        assert(is_live(s0, r0[j].1.spec_hash()));
                                    }
                                }
                            }
                            assert forall|bb: int, kk: int| 0 <= bb < vk_objs@.len() && vk_objs@[bb] is Some && 0 <= kk < vk_objs@[bb]->0@.len() implies #[trigger] obj_live_match(vk_objs@, bindings@, s2, bb, kk) by {
                                let h = sampler_hash(bindings@[bb].immutable_samplers->0@[kk]);
                                assert(obj_live_match(objs_at, bindings@, s0, bb, kk));
                                assert(is_live(s0, h));
                            }
                            assert forall|j: int| 0 <= j < k + 1 implies #[trigger] raw_live_match(raws@, defs@, s2, j) by {
                                if j < k {
                                    assert(raw_live_match(raws0, defs@, s0, j));
                                    assert(raws@[j] == raws0[j]);
                                    assert(is_live(s0, sampler_hash(defs@[j])));
                                }
                            }
                        }
                    }
                    proof {
                        assert(defs@.take(ns as int) =~= defs@);
                        assert(bindings@.take(b + 1).drop_last() =~= bindings@.take(b as int));
                        assert(binding_samplers(bindings@.take(b + 1)).len() == binding_samplers(bindings@.take(b as int)).len() + ns);
                    }
                    let ghost objs0 = vk_objs@;
                    let ghost raws_g = raws@;
                    vk_objs.push(Some(raws));
                    proof {
                        assert forall|bb: int, kk: int| 0 <= bb < vk_objs@.len() && vk_objs@[bb] is Some && 0 <= kk < vk_objs@[bb]->0@.len() implies #[trigger] obj_live_match(vk_objs@, bindings@, self.samplers@, bb, kk) by {
                            if bb < b {
                                assert(vk_objs@[bb] == objs0[bb]);
                                assert(obj_live_match(objs0, bindings@, self.samplers@, bb, kk));
                            } else {
                                assert(vk_objs@[bb]->0@[kk] == raws_g[kk]);
                                assert(bindings@[bb].immutable_samplers->0@[kk] == defs@[kk]);
                                assert(raw_live_match(raws_g, defs@, self.samplers@, kk));
                            }
                        }
                    }
                },
                None => {
                    proof {
                        assert(bindings@.take(b + 1).drop_last() =~= bindings@.take(b as int));
                        assert(binding_samplers(bindings@.take(b + 1)) =~= binding_samplers(bindings@.take(b as int)));
                    }
                    let ghost objs0 = vk_objs@;
                    vk_objs.push(None);
                    proof {
                        assert forall|bb: int, kk: int| 0 <= bb < vk_objs@.len() && vk_objs@[bb] is Some && 0 <= kk < vk_objs@[bb]->0@.len() implies #[trigger] obj_live_match(vk_objs@, bindings@, self.samplers@, bb, kk) by {
                            assert(vk_objs@[bb] == objs0[bb]);
                            assert(obj_live_match(objs0, bindings@, self.samplers@, bb, kk));
                        }
                    }
                },
            }
            proof {
                assert(bindings@.take(b + 1) =~= bindings@.take(b as int).push(bindings@[b as int]));
            }
        }
        proof {
            assert(bindings@.take(nb as int) =~= bindings@);
        }
        let ghost samplers_made = self.samplers@;
        let made: Result<DescriptorSetLayoutResource, VkError> = match create_layout(&vk_objs) {
            Ok(descriptor_set_layout) => {
                let mut immutable_samplers: Vec<ResourceArc<u64>> = Vec::new();
                let ghost rec = recorded@;
                let mut recorded = recorded;
                let nr = recorded.len();
                for i in 0..nr
                    invariant
                        nr == rec.len(),
                        recorded@ == rec.skip(i as int),
                        arc_hashes(immutable_samplers@) == recorded_hashes(rec.take(i as int)),
                {
                    let ghost before = immutable_samplers@;
                    let (_, a) = recorded.remove(0);
                    proof {
                        assert(recorded@ =~= rec.skip(i + 1));
                    }
                    immutable_samplers.push(a);
                    proof {
                        assert(arc_hashes(immutable_samplers@) =~= arc_hashes(before).push(a.spec_hash()));
                        assert(recorded_hashes(rec.take(i + 1)) =~= recorded_hashes(rec.take(i as int)).push(rec[i as int].1.spec_hash()));
                    }
                }
                proof {
                    assert(rec.take(nr as int) =~= rec);
                    assert(recorded_hashes(rec) =~= recorded_defs(rec).map_values(|d: Sampler| sampler_hash(d)));
                }
                Ok(DescriptorSetLayoutResource {
                    descriptor_set_layout,
                    descriptor_set_layout_def: descriptor_set_layout_def.duplicate(),
                    immutable_samplers,
                })
            },
            Err(e) => {
                proof {
                    lemma_drop_all_adds_none(self.samplers@, recorded_hashes(recorded@));
                }
                drop_recorded_samplers(&mut self.samplers, recorded);
                Err(e)
            },
        };
        let ghost made_g = made;
        let make = move || -> (m: Result<DescriptorSetLayoutResource, VkError>)
            ensures
                m == made_g,
        {
            made
        };
        let r = self.descriptor_set_layouts.get_or_create(hash, descriptor_set_layout_def, make);
        proof {
            let bs = descriptor_set_layout_def.descriptor_set_layout_bindings@;
            assert(sampler_objs_fit(vk_objs@, bs));
            assert(get_or_create_step(counted_use(counted_use(old(self).descriptor_set_layouts@)), hash.0, self.descriptor_set_layouts@, r));
            lemma_step_adds_at_most_one(counted_use(old(self).descriptor_set_layouts@), hash.0, self.descriptor_set_layouts@, r);
            assert forall|h: u64| #[trigger] count_of(self.descriptor_set_layouts@, h) <= count_of(old(self).descriptor_set_layouts@, h) + 1 by {
                assert(count_of(counted_use(old(self).descriptor_set_layouts@), h) == count_of(old(self).descriptor_set_layouts@, h));
            }
            assert forall|h: u64| #[trigger] count_of(self.samplers@, h) <= count_of(old(self).samplers@, h) + binding_samplers(bs).len() by {
                assert(count_of(samplers_made, h) <= count_of(old(self).samplers@, h) + binding_samplers(bindings@.take(nb as int)).len());
                if self.samplers@ != samplers_made {
                    assert(count_of(self.samplers@, h) <= count_of(samplers_made, h));
                }
            }
        }
        r
    }

    /// The pipeline layout of this description, created when none is live. Its descriptor set
    /// layouts are got or created first, in order (with `create_sampler` and
    /// `create_descriptor_set_layout`), and kept by the pipeline layout; `create_layout` is
    /// given their raw handles in order. When one cannot be had, no pipeline layout is made.
    pub fn get_or_create_pipeline_layout<CS, CD, CL>(
        &mut self,
        pipeline_layout_def: &PipelineLayout,
        create_sampler: &CS,
        create_descriptor_set_layout: &CD,
        create_layout: CL,
    ) -> (r: Result<ResourceArc<PipelineLayoutResource>, VkError>)
        where
            CS: Fn(&Sampler) -> Result<u64, VkError>,
            CD: Fn(&DescriptorSetLayout, &Vec<Option<Vec<u64>>>) -> Result<u64, VkError>,
            CL: FnOnce(&Vec<u64>) -> Result<u64, VkError>,
        requires
            old(self).samplers.wf(),
            old(self).descriptor_set_layouts.wf(),
            old(self).pipeline_layouts.wf(),
            forall|s: &Sampler| create_sampler.requires((s,)),
            forall|d: &DescriptorSetLayout, v: &Vec<Option<Vec<u64>>>| create_descriptor_set_layout.requires((d, v)),
            forall|v: &Vec<u64>| create_layout.requires((v,)),
            // No descriptor set layout is live under the hash of another description, and no
            // two of the descriptions share a hash.
            dsl_defs_unambiguous(old(self).descriptor_set_layouts@, pipeline_layout_def.descriptor_set_layouts@),
            // No other description's pipeline layout is live under this description's hash.
            ({
                let h = pipeline_layout_hash(*pipeline_layout_def);
                is_live(old(self).pipeline_layouts@, h)
                    ==> old(self).pipeline_layouts@.resources[h].pipeline_layout_def.same_as(*pipeline_layout_def)
            }),
        ensures
            final(self).samplers.wf(),
            final(self).descriptor_set_layouts.wf(),
            final(self).pipeline_layouts.wf(),
            r is Ok ==> final(self).pipeline_layouts@.resources[r->Ok_0.spec_hash()].pipeline_layout_def.same_as(*pipeline_layout_def),
            ({
                let h = pipeline_layout_hash(*pipeline_layout_def);
                let p0 = old(self).pipeline_layouts@;
                let defs = pipeline_layout_def.descriptor_set_layouts@;
                &&& r is Ok ==> r->Ok_0.spec_hash() == h
                &&& (is_live(p0, h) && p0.strong_counts[h] < u64::MAX) ==> {
                    &&& r is Ok
                    &&& final(self).pipeline_layouts@ == (LookupModel { strong_counts: p0.strong_counts.insert(h, (p0.strong_counts[h] + 1) as u64), ..counted_use(p0) })
                    &&& final(self).descriptor_set_layouts == old(self).descriptor_set_layouts
                    &&& final(self).samplers == old(self).samplers
                }
                &&& (is_live(p0, h) && p0.strong_counts[h] == u64::MAX) ==> {
                    &&& r == Err::<ResourceArc<PipelineLayoutResource>, VkError>(VkError(VK_ERROR_TOO_MANY_OBJECTS))
                    &&& final(self).pipeline_layouts@ == counted_use(p0)
                    &&& final(self).descriptor_set_layouts == old(self).descriptor_set_layouts
                    &&& final(self).samplers == old(self).samplers
                }
                &&& !is_live(p0, h) ==> {
                    ||| {
                        &&& r is Err
                        // A descriptor set layout could not be had: no pipeline layout is made
                        &&& final(self).pipeline_layouts@ == counted_use(p0)
                        &&& exists|i: int| 0 <= i < defs.len() && {
                            let bs = (#[trigger] defs[i]).descriptor_set_layout_bindings@;
                            ||| exists|v: &Vec<Option<Vec<u64>>>| create_descriptor_set_layout.ensures((&defs[i], v), Err::<u64, VkError>(r->Err_0))
                            ||| r->Err_0 == VkError(VK_ERROR_TOO_MANY_OBJECTS)
                                && count_of(old(self).descriptor_set_layouts@, descriptor_set_layout_hash(defs[i])) + defs.len() >= u64::MAX
                            ||| exists|b: int, k: int|
                                #![trigger bs[b].immutable_samplers->0@[k]]
                                0 <= b < bs.len() && bs[b].immutable_samplers is Some && 0 <= k < bs[b].immutable_samplers->0@.len() && {
                                    ||| create_sampler.ensures((&bs[b].immutable_samplers->0@[k],), Err::<u64, VkError>(r->Err_0))
                                    ||| r->Err_0 == VkError(VK_ERROR_TOO_MANY_OBJECTS)
                                        && count_of(old(self).samplers@, sampler_hash(bs[b].immutable_samplers->0@[k])) + total_samplers(defs) >= u64::MAX
                                }
                        }
                    }
                    ||| exists|objs: Vec<u64>| {
                        &&& #[trigger] objs@.len() == defs.len()
                        &&& get_or_create_step(counted_use(counted_use(p0)), h, final(self).pipeline_layouts@, r)
                        &&& match r {
                            Ok(_) => {
                                let pl = final(self).pipeline_layouts@.resources[h];
                                &&& create_layout.ensures((&objs,), Ok::<u64, VkError>(pl.pipeline_layout))
                                &&& pl.pipeline_layout_def.same_as(*pipeline_layout_def)
                                &&& arc_hashes(pl.descriptor_sets@) == defs.map_values(|d: DescriptorSetLayout| descriptor_set_layout_hash(d))
                                // The raw handles given were those of the live layouts, in order
                                &&& forall|i: int| 0 <= i < defs.len()
                                    ==> #[trigger] layout_live_match(objs@, defs, final(self).descriptor_set_layouts@, i)
                            },
                            Err(e) => create_layout.ensures((&objs,), Err::<u64, VkError>(e)),
                        }
                    }
                }
            }),
    {
        let hash = hash_pipeline_layout(pipeline_layout_def);
        match self.pipeline_layouts.get(hash, pipeline_layout_def) {
            Some(arc) => {
                return Ok(arc);
            },
            None => {},
        }
        if self.pipeline_layouts.is_live_hash(hash) {
            return Err(VkError(VK_ERROR_TOO_MANY_OBJECTS));
        }
        let ghost pl0 = self.pipeline_layouts@;
        proof {
            assert(pl0 == counted_use(old(self).pipeline_layouts@));
        }
        let mut descriptor_set_layout_arcs: Vec<ResourceArc<DescriptorSetLayoutResource>> = Vec::new();
        let mut descriptor_set_layouts: Vec<u64> = Vec::new();
        let defs = &pipeline_layout_def.descriptor_set_layouts;
        let n = defs.len();
        for i in 0..n
            invariant
                n == defs@.len(),
                self.samplers.wf(),
                self.descriptor_set_layouts.wf(),
                self.pipeline_layouts.wf(),
                self.pipeline_layouts@ == pl0,
                pl0 == counted_use(old(self).pipeline_layouts@),
                hash.0 == pipeline_layout_hash(*pipeline_layout_def),
                !is_live(pl0, hash.0),
                forall|s: &Sampler| create_sampler.requires((s,)),
                forall|d: &DescriptorSetLayout, v: &Vec<Option<Vec<u64>>>| create_descriptor_set_layout.requires((d, v)),
                descriptor_set_layouts@.len() == i,
                dsl_defs_unambiguous(self.descriptor_set_layouts@, defs@),
                defs@ == pipeline_layout_def.descriptor_set_layouts@,
                forall|h: u64| #[trigger] count_of(self.descriptor_set_layouts@, h) <= count_of(old(self).descriptor_set_layouts@, h) + i,
                forall|h: u64| #[trigger] count_of(self.samplers@, h) <= count_of(old(self).samplers@, h) + total_samplers(defs@.take(i as int)),
                forall|j: int| 0 <= j < i ==> #[trigger] layout_live_match(descriptor_set_layouts@, defs@, self.descriptor_set_layouts@, j),
                arc_hashes(descriptor_set_layout_arcs@)
                    == defs@.take(i as int).map_values(|d: DescriptorSetLayout| descriptor_set_layout_hash(d)),
        {
            let d = &defs[i];
            let make = |objs: &Vec<Option<Vec<u64>>>| -> (m: Result<u64, VkError>)
                requires
                    create_descriptor_set_layout.requires((d, objs)),
                ensures
                    create_descriptor_set_layout.ensures((d, objs), m),
            {
                create_descriptor_set_layout(d, objs)
            };
            let ghost d0 = self.descriptor_set_layouts@;
            let ghost sm0 = self.samplers@;
            proof {
                self.descriptor_set_layouts.lemma_wf_model();
                assert(defs@[i as int] == *d);
                assert(defs@.take(i + 1).drop_last() =~= defs@.take(i as int));
                assert(total_samplers(defs@.take(i + 1)) == total_samplers(defs@.take(i as int)) + binding_samplers(d.descriptor_set_layout_bindings@).len());
                assert(defs@.take(n as int) =~= defs@);
                assert(total_samplers(defs@.take(i as int)) + binding_samplers(d.descriptor_set_layout_bindings@).len() <= total_samplers(defs@)) by {
                    lemma_total_samplers_prefix(defs@, i as int, n as int);
                }
            }
            let arc = match self.get_or_create_descriptor_set_layout(d, create_sampler, make) {
                Ok(a) => a,
                Err(e) => {
                    proof {
                        let dh = descriptor_set_layout_hash(*d);
                        let bs = d.descriptor_set_layout_bindings@;
                        if !is_live(d0, dh) && self.descriptor_set_layouts@ != counted_use(d0) {
                            let objs = choose|objs: Vec<Option<Vec<u64>>>| {
                                &&& #[trigger] sampler_objs_fit(objs@, bs)
                                &&& get_or_create_step(counted_use(counted_use(d0)), dh, self.descriptor_set_layouts@, Err::<ResourceArc<DescriptorSetLayoutResource>, VkError>(e))
                                &&& make.ensures((&objs,), Err::<u64, VkError>(e))
                            };
                            assert(create_descriptor_set_layout.ensures((d, &objs), Err::<u64, VkError>(e)));
                        } else if is_live(d0, dh) {
                            assert(count_of(d0, dh) == u64::MAX);
                            assert(count_of(d0, dh) <= count_of(old(self).descriptor_set_layouts@, dh) + i);
                        } else {
                            let (b, k) = choose|b: int, k: int|
                                #![trigger bs[b].immutable_samplers->0@[k]]
                                0 <= b < bs.len() && bs[b].immutable_samplers is Some && 0 <= k < bs[b].immutable_samplers->0@.len() && {
                                    ||| create_sampler.ensures((&bs[b].immutable_samplers->0@[k],), Err::<u64, VkError>(e))
                                    ||| e == VkError(VK_ERROR_TOO_MANY_OBJECTS)
                                        && count_of(sm0, sampler_hash(bs[b].immutable_samplers->0@[k])) + binding_samplers(bs).len() >= u64::MAX
                                };
                            let sh = sampler_hash(bs[b].immutable_samplers->0@[k]);
                            assert(count_of(sm0, sh) <= count_of(old(self).samplers@, sh) + total_samplers(defs@.take(i as int)));
                        }
                    }
                    drop_arcs(&mut self.descriptor_set_layouts, descriptor_set_layout_arcs);
                    return Err(e);
                },
            };
            proof {
                let d1 = self.descriptor_set_layouts@;
                let hk = arc.spec_hash();
                assert forall|h: u64| h != hk && #[trigger] is_live(d1, h) implies is_live(d0, h) && d1.resources[h] == d0.resources[h] by {
                    if !is_live(d0, hk) {
                        let c = counted_use(counted_use(d0));
                        assert(lookup_wf(c));
                        if is_live(d0, h) {
                            lemma_dropped_keeps_live(c, h);
                        }
                    }
                }
                assert forall|h: u64| #[trigger] is_live(d0, h) implies is_live(d1, h) && d1.resources[h] == d0.resources[h] by {
                    if !is_live(d0, hk) {
                        lemma_dropped_keeps_live(counted_use(counted_use(d0)), h);
                    }
                }
                lemma_keeps_unambiguous(d0, d1, defs@, i as int, hk);
                assert forall|h: u64| #[trigger] count_of(d1, h) <= count_of(old(self).descriptor_set_layouts@, h) + i + 1 by {
                    assert(count_of(d1, h) <= count_of(d0, h) + 1);
                }
                assert forall|h: u64| #[trigger] count_of(self.samplers@, h) <= count_of(old(self).samplers@, h) + total_samplers(defs@.take(i + 1)) by {
                    assert(count_of(self.samplers@, h) <= count_of(sm0, h) + binding_samplers(d.descriptor_set_layout_bindings@).len());
                    assert(count_of(sm0, h) <= count_of(old(self).samplers@, h) + total_samplers(defs@.take(i as int)));
                }
            }
            proof {
                self.descriptor_set_layouts.lemma_wf_model();
            }
            // The layout just handed out is live, so the lookup holds it.
            let raw = self.descriptor_set_layouts.resource(&arc).unwrap().descriptor_set_layout;
            let ghost before = descriptor_set_layout_arcs@;
            let ghost raws0 = descriptor_set_layouts@;
            descriptor_set_layout_arcs.push(arc);
            descriptor_set_layouts.push(raw);
            proof {
                let d1 = self.descriptor_set_layouts@;
                assert forall|j: int| 0 <= j < i + 1 implies #[trigger] layout_live_match(descriptor_set_layouts@, defs@, d1, j) by {
                    if j < i {
                        assert(layout_live_match(raws0, defs@, d0, j));
                        assert(is_live(d0, descriptor_set_layout_hash(defs@[j])));
                    }
                }
                assert(defs@.take(i + 1) =~= defs@.take(i as int).push(defs@[i as int]));
                assert(arc_hashes(descriptor_set_layout_arcs@) =~= arc_hashes(before).push(arc.spec_hash()));
                assert(defs@.take(i + 1).map_values(|d: DescriptorSetLayout| descriptor_set_layout_hash(d))
                    =~= defs@.take(i as int).map_values(|d: DescriptorSetLayout| descriptor_set_layout_hash(d)).push(descriptor_set_layout_hash(defs@[i as int])));
            }
        }
        proof {
            assert(defs@.take(n as int) =~= defs@);
        }
        let ghost arcs_g = descriptor_set_layout_arcs@;
        let made: Result<PipelineLayoutResource, VkError> = match create_layout(&descriptor_set_layouts) {
            Ok(pipeline_layout) => Ok(PipelineLayoutResource {
                pipeline_layout,
                pipeline_layout_def: pipeline_layout_def.duplicate(),
                descriptor_sets: descriptor_set_layout_arcs,
            }),
            Err(e) => {
                drop_arcs(&mut self.descriptor_set_layouts, descriptor_set_layout_arcs);
                Err(e)
            },
        };
        let ghost made_g = made;
        let make = move || -> (m: Result<PipelineLayoutResource, VkError>)
            ensures
                m == made_g,
        {
            made
        };
        let r = self.pipeline_layouts.get_or_create(hash, pipeline_layout_def, make);
        proof {
            assert(descriptor_set_layouts@.len() == pipeline_layout_def.descriptor_set_layouts@.len());
            assert(get_or_create_step(counted_use(counted_use(old(self).pipeline_layouts@)), hash.0, self.pipeline_layouts@, r));
        }
        r
    }
}

/// Groups of hashes, one group after the other.
pub open spec fn joined(s: Seq<Seq<u64>>) -> Seq<u64>
    decreases s.len(),
{
    if s.len() == 0 {
        Seq::empty()
    } else {
        joined(s.drop_last()) + s.last()
    }
}

/// The raw objects of released resources, for the caller to destroy on the device.
pub struct ReleasedObjects {
    pub images: Vec<ImageRaw>,
    pub image_views: Vec<u64>,
    pub buffers: Vec<BufferRaw>,
    pub shader_modules: Vec<u64>,
    pub samplers: Vec<u64>,
    pub descriptor_set_layouts: Vec<u64>,
    pub pipeline_layouts: Vec<u64>,
    pub render_passes: Vec<u64>,
    pub framebuffers: Vec<u64>,
    pub graphics_pipelines: Vec<Vec<u64>>,
}

impl ResourceLookupSet {
    /// Takes released resources apart: the handles they hold to other resources are dropped
    /// (so that what they use is released in turn), and their raw objects are returned for the
    /// caller to destroy. Material passes hold no raw object.
    pub fn release_held_handles(&mut self, released: ReleasedResources) -> (r: ReleasedObjects)
        requires
            old(self).wf(),
        ensures
            final(self).wf(),
            final(self).render_passes@ == spec_drop_all(old(self).render_passes@,
                released.graphics_pipelines@.map_values(|g: GraphicsPipelineResource| g.renderpass.spec_hash())
                + released.framebuffers@.map_values(|f: FramebufferResource| f.renderpass.spec_hash())),
            final(self).pipeline_layouts@ == spec_drop_all(old(self).pipeline_layouts@,
                released.graphics_pipelines@.map_values(|g: GraphicsPipelineResource| g.pipeline_layout.spec_hash())
                + released.material_passes@.map_values(|m: MaterialPassResource| m.pipeline_layout.spec_hash())),
            final(self).shader_modules@ == spec_drop_all(old(self).shader_modules@,
                joined(released.material_passes@.map_values(|m: MaterialPassResource| arc_hashes(m.shader_modules@)))),
            final(self).image_views@ == spec_drop_all(old(self).image_views@,
                joined(released.framebuffers@.map_values(|f: FramebufferResource| arc_hashes(f.attachments@)))),
            final(self).descriptor_set_layouts@ == spec_drop_all(old(self).descriptor_set_layouts@,
                joined(released.pipeline_layouts@.map_values(|p: PipelineLayoutResource| arc_hashes(p.descriptor_sets@)))),
            final(self).samplers@ == spec_drop_all(old(self).samplers@,
                joined(released.descriptor_set_layouts@.map_values(|d: DescriptorSetLayoutResource| arc_hashes(d.immutable_samplers@)))),
            final(self).images@ == spec_drop_all(old(self).images@,
                released.image_views@.map_values(|v: ImageViewResource| v.image.spec_hash())),
            final(self).framebuffers == old(self).framebuffers,
            final(self).material_passes == old(self).material_passes,
            final(self).graphics_pipelines == old(self).graphics_pipelines,
            final(self).buffers == old(self).buffers,
            r.images@ == released.images@.map_values(|x: ImageResource| x.image),
            r.image_views@ == released.image_views@.map_values(|x: ImageViewResource| x.image_view),
            r.buffers@ == released.buffers@,
            r.shader_modules@ == released.shader_modules@.map_values(|x: ShaderModuleResource| x.shader_module),
            r.samplers@ == released.samplers@,
            r.descriptor_set_layouts@ == released.descriptor_set_layouts@.map_values(|x: DescriptorSetLayoutResource| x.descriptor_set_layout),
            r.pipeline_layouts@ == released.pipeline_layouts@.map_values(|x: PipelineLayoutResource| x.pipeline_layout),
            r.render_passes@ == released.render_passes@.map_values(|x: RenderPassResource| x.renderpass),
            r.framebuffers@ == released.framebuffers@.map_values(|x: FramebufferResource| x.framebuffer),
            r.graphics_pipelines@ == released.graphics_pipelines@.map_values(|x: GraphicsPipelineResource| x.pipelines),
    {
        let ReleasedResources {
            images,
            image_views,
            buffers,
            shader_modules,
            samplers,
            descriptor_set_layouts,
            pipeline_layouts,
            render_passes,
            framebuffers,
            material_passes,
            graphics_pipelines,
        } = released;
        let mut rp_arcs: Vec<ResourceArc<RenderPassResource>> = Vec::new();
        let mut pl_arcs: Vec<ResourceArc<PipelineLayoutResource>> = Vec::new();

        // Graphics pipelines: their pipeline layout and renderpass.
        let ghost gps = graphics_pipelines@;
        let mut rest = graphics_pipelines;
        let mut gp_raw: Vec<Vec<u64>> = Vec::new();
        let n = rest.len();
        for i in 0..n
            invariant
                n == gps.len(),
                rest@ == gps.skip(i as int),
                arc_hashes(rp_arcs@) == gps.take(i as int).map_values(|g: GraphicsPipelineResource| g.renderpass.spec_hash()),
                arc_hashes(pl_arcs@) == gps.take(i as int).map_values(|g: GraphicsPipelineResource| g.pipeline_layout.spec_hash()),
                gp_raw@ == gps.take(i as int).map_values(|x: GraphicsPipelineResource| x.pipelines),
        {
            let ghost g = gps[i as int];
            let GraphicsPipelineResource { pipelines, pipeline_layout, renderpass } = rest.remove(0);
            proof {
                assert(rest@ =~= gps.skip(i + 1));
                assert(gps.take(i + 1) =~= gps.take(i as int).push(g));
            }
            let ghost rp_before = rp_arcs@;
            let ghost pl_before = pl_arcs@;
            rp_arcs.push(renderpass);
            pl_arcs.push(pipeline_layout);
            gp_raw.push(pipelines);
            proof {
                assert(arc_hashes(rp_arcs@) =~= arc_hashes(rp_before).push(g.renderpass.spec_hash()));
                assert(arc_hashes(pl_arcs@) =~= arc_hashes(pl_before).push(g.pipeline_layout.spec_hash()));
                assert(gps.take(i + 1).map_values(|g: GraphicsPipelineResource| g.renderpass.spec_hash())
                    =~= gps.take(i as int).map_values(|g: GraphicsPipelineResource| g.renderpass.spec_hash()).push(g.renderpass.spec_hash()));
                assert(gps.take(i + 1).map_values(|g: GraphicsPipelineResource| g.pipeline_layout.spec_hash())
                    =~= gps.take(i as int).map_values(|g: GraphicsPipelineResource| g.pipeline_layout.spec_hash()).push(g.pipeline_layout.spec_hash()));
                assert(gps.take(i + 1).map_values(|x: GraphicsPipelineResource| x.pipelines)
                    =~= gps.take(i as int).map_values(|x: GraphicsPipelineResource| x.pipelines).push(g.pipelines));
            }
        }
        proof {
            assert(gps.take(n as int) =~= gps);
        }
        let ghost rp_from_gps = arc_hashes(rp_arcs@);
        let ghost pl_from_gps = arc_hashes(pl_arcs@);

        // Material passes: their pipeline layout and shader modules.
        let ghost mps = material_passes@;
        let mut rest = material_passes;
        let mut sm_arcs: Vec<ResourceArc<ShaderModuleResource>> = Vec::new();
        let n = rest.len();
        for i in 0..n
            invariant
                n == mps.len(),
                rest@ == mps.skip(i as int),
                arc_hashes(pl_arcs@) == pl_from_gps + mps.take(i as int).map_values(|m: MaterialPassResource| m.pipeline_layout.spec_hash()),
                arc_hashes(sm_arcs@) == joined(mps.take(i as int).map_values(|m: MaterialPassResource| arc_hashes(m.shader_modules@))),
        {
            let ghost m = mps[i as int];
            let MaterialPassResource { material_pass_key: _, pipeline_layout, shader_modules: mut modules, shader_module_vk_objs: _ } = rest.remove(0);
            proof {
                assert(rest@ =~= mps.skip(i + 1));
                assert(mps.take(i + 1) =~= mps.take(i as int).push(m));
            }
            let ghost pl_before = pl_arcs@;
            let ghost sm_before = sm_arcs@;
            pl_arcs.push(pipeline_layout);
            sm_arcs.append(&mut modules);
            proof {
                assert(arc_hashes(pl_arcs@) =~= arc_hashes(pl_before).push(m.pipeline_layout.spec_hash()));
                assert(mps.take(i + 1).map_values(|m: MaterialPassResource| m.pipeline_layout.spec_hash())
                    =~= mps.take(i as int).map_values(|m: MaterialPassResource| m.pipeline_layout.spec_hash()).push(m.pipeline_layout.spec_hash()));
                assert(arc_hashes(sm_arcs@) =~= arc_hashes(sm_before) + arc_hashes(m.shader_modules@));
                let js = mps.take(i + 1).map_values(|m: MaterialPassResource| arc_hashes(m.shader_modules@));
                assert(js.drop_last() =~= mps.take(i as int).map_values(|m: MaterialPassResource| arc_hashes(m.shader_modules@)));
            }
        }
        proof {
            assert(mps.take(n as int) =~= mps);
        }

        // Framebuffers: their renderpass and attachments.
        let ghost fbs = framebuffers@;
        let mut rest = framebuffers;
        let mut iv_arcs: Vec<ResourceArc<ImageViewResource>> = Vec::new();
        let mut fb_raw: Vec<u64> = Vec::new();
        let n = rest.len();
        for i in 0..n
            invariant
                n == fbs.len(),
                rest@ == fbs.skip(i as int),
                arc_hashes(rp_arcs@) == rp_from_gps + fbs.take(i as int).map_values(|f: FramebufferResource| f.renderpass.spec_hash()),
                arc_hashes(iv_arcs@) == joined(fbs.take(i as int).map_values(|f: FramebufferResource| arc_hashes(f.attachments@))),
                fb_raw@ == fbs.take(i as int).map_values(|x: FramebufferResource| x.framebuffer),
        {
            let ghost f = fbs[i as int];
            let FramebufferResource { framebuffer, framebuffer_key: _, renderpass, attachments: mut atts } = rest.remove(0);
            proof {
                assert(rest@ =~= fbs.skip(i + 1));
                assert(fbs.take(i + 1) =~= fbs.take(i as int).push(f));
            }
            let ghost rp_before = rp_arcs@;
            let ghost iv_before = iv_arcs@;
            rp_arcs.push(renderpass);
            iv_arcs.append(&mut atts);
            fb_raw.push(framebuffer);
            proof {
                assert(arc_hashes(rp_arcs@) =~= arc_hashes(rp_before).push(f.renderpass.spec_hash()));
                assert(fbs.take(i + 1).map_values(|f: FramebufferResource| f.renderpass.spec_hash())
                    =~= fbs.take(i as int).map_values(|f: FramebufferResource| f.renderpass.spec_hash()).push(f.renderpass.spec_hash()));
                assert(arc_hashes(iv_arcs@) =~= arc_hashes(iv_before) + arc_hashes(f.attachments@));
                let js = fbs.take(i + 1).map_values(|f: FramebufferResource| arc_hashes(f.attachments@));
                assert(js.drop_last() =~= fbs.take(i as int).map_values(|f: FramebufferResource| arc_hashes(f.attachments@)));
                assert(fbs.take(i + 1).map_values(|x: FramebufferResource| x.framebuffer)
                    =~= fbs.take(i as int).map_values(|x: FramebufferResource| x.framebuffer).push(framebuffer));
            }
        }
        proof {
            assert(fbs.take(n as int) =~= fbs);
        }

        // Pipeline layouts: their descriptor set layouts.
        let ghost pls = pipeline_layouts@;
        let mut rest = pipeline_layouts;
        let mut dsl_arcs: Vec<ResourceArc<DescriptorSetLayoutResource>> = Vec::new();
        let mut pl_raw: Vec<u64> = Vec::new();
        let n = rest.len();
        for i in 0..n
            invariant
                n == pls.len(),
                rest@ == pls.skip(i as int),
                arc_hashes(dsl_arcs@) == joined(pls.take(i as int).map_values(|p: PipelineLayoutResource| arc_hashes(p.descriptor_sets@))),
                pl_raw@ == pls.take(i as int).map_values(|x: PipelineLayoutResource| x.pipeline_layout),
        {
            let ghost p = pls[i as int];
            let PipelineLayoutResource { pipeline_layout, pipeline_layout_def: _, descriptor_sets: mut sets } = rest.remove(0);
            proof {
                assert(rest@ =~= pls.skip(i + 1));
                assert(pls.take(i + 1) =~= pls.take(i as int).push(p));
            }
            let ghost before = dsl_arcs@;
            dsl_arcs.append(&mut sets);
            pl_raw.push(pipeline_layout);
            proof {
                assert(arc_hashes(dsl_arcs@) =~= arc_hashes(before) + arc_hashes(p.descriptor_sets@));
                let js = pls.take(i + 1).map_values(|p: PipelineLayoutResource| arc_hashes(p.descriptor_sets@));
                assert(js.drop_last() =~= pls.take(i as int).map_values(|p: PipelineLayoutResource| arc_hashes(p.descriptor_sets@)));
                assert(pls.take(i + 1).map_values(|x: PipelineLayoutResource| x.pipeline_layout)
                    =~= pls.take(i as int).map_values(|x: PipelineLayoutResource| x.pipeline_layout).push(pipeline_layout));
            }
        }
        proof {
            assert(pls.take(n as int) =~= pls);
        }

        // Descriptor set layouts: their immutable samplers.
        let ghost dsls = descriptor_set_layouts@;
        let mut rest = descriptor_set_layouts;
        let mut sampler_arcs: Vec<ResourceArc<u64>> = Vec::new();
        let mut dsl_raw: Vec<u64> = Vec::new();
        let n = rest.len();
        for i in 0..n
            invariant
                n == dsls.len(),
                rest@ == dsls.skip(i as int),
                arc_hashes(sampler_arcs@) == joined(dsls.take(i as int).map_values(|d: DescriptorSetLayoutResource| arc_hashes(d.immutable_samplers@))),
                dsl_raw@ == dsls.take(i as int).map_values(|x: DescriptorSetLayoutResource| x.descriptor_set_layout),
        {
            let ghost d = dsls[i as int];
            let DescriptorSetLayoutResource { descriptor_set_layout, descriptor_set_layout_def: _, immutable_samplers: mut held } = rest.remove(0);
            proof {
                assert(rest@ =~= dsls.skip(i + 1));
                assert(dsls.take(i + 1) =~= dsls.take(i as int).push(d));
            }
            let ghost before = sampler_arcs@;
            sampler_arcs.append(&mut held);
            dsl_raw.push(descriptor_set_layout);
            proof {
                assert(arc_hashes(sampler_arcs@) =~= arc_hashes(before) + arc_hashes(d.immutable_samplers@));
                let js = dsls.take(i + 1).map_values(|d: DescriptorSetLayoutResource| arc_hashes(d.immutable_samplers@));
                assert(js.drop_last() =~= dsls.take(i as int).map_values(|d: DescriptorSetLayoutResource| arc_hashes(d.immutable_samplers@)));
                assert(dsls.take(i + 1).map_values(|x: DescriptorSetLayoutResource| x.descriptor_set_layout)
                    =~= dsls.take(i as int).map_values(|x: DescriptorSetLayoutResource| x.descriptor_set_layout).push(descriptor_set_layout));
            }
        }
        proof {
            assert(dsls.take(n as int) =~= dsls);
        }

        // Image views: their image.
        let ghost ivs = image_views@;
        let mut rest = image_views;
        let mut image_arcs: Vec<ResourceArc<ImageResource>> = Vec::new();
        let mut iv_raw: Vec<u64> = Vec::new();
        let n = rest.len();
        for i in 0..n
            invariant
                n == ivs.len(),
                rest@ == ivs.skip(i as int),
                arc_hashes(image_arcs@) == ivs.take(i as int).map_values(|v: ImageViewResource| v.image.spec_hash()),
                iv_raw@ == ivs.take(i as int).map_values(|x: ImageViewResource| x.image_view),
        {
            let ghost v = ivs[i as int];
            let ImageViewResource { image_view, image, image_view_key: _ } = rest.remove(0);
            proof {
                assert(rest@ =~= ivs.skip(i + 1));
                assert(ivs.take(i + 1) =~= ivs.take(i as int).push(v));
            }
            let ghost before = image_arcs@;
            image_arcs.push(image);
            iv_raw.push(image_view);
            proof {
                assert(arc_hashes(image_arcs@) =~= arc_hashes(before).push(v.image.spec_hash()));
                assert(ivs.take(i + 1).map_values(|v: ImageViewResource| v.image.spec_hash())
                    =~= ivs.take(i as int).map_values(|v: ImageViewResource| v.image.spec_hash()).push(v.image.spec_hash()));
                assert(ivs.take(i + 1).map_values(|x: ImageViewResource| x.image_view)
                    =~= ivs.take(i as int).map_values(|x: ImageViewResource| x.image_view).push(image_view));
            }
        }
        proof {
            assert(ivs.take(n as int) =~= ivs);
        }

        let image_raw = raw_images_of(images);
        let shader_module_raw = raw_shader_modules_of(shader_modules);
        let render_pass_raw = raw_render_passes_of(render_passes);

        drop_arcs(&mut self.render_passes, rp_arcs);
        drop_arcs(&mut self.pipeline_layouts, pl_arcs);
        drop_arcs(&mut self.shader_modules, sm_arcs);
        drop_arcs(&mut self.image_views, iv_arcs);
        drop_arcs(&mut self.descriptor_set_layouts, dsl_arcs);
        drop_arcs(&mut self.samplers, sampler_arcs);
        drop_arcs(&mut self.images, image_arcs);
        ReleasedObjects {
            images: image_raw,
            image_views: iv_raw,
            buffers,
            shader_modules: shader_module_raw,
            samplers,
            descriptor_set_layouts: dsl_raw,
            pipeline_layouts: pl_raw,
            render_passes: render_pass_raw,
            framebuffers: fb_raw,
            graphics_pipelines: gp_raw,
        }
    }
}

/// The raw image of each image, in order.
fn raw_images_of(v: Vec<ImageResource>) -> (r: Vec<ImageRaw>)
    ensures
        r@ == v@.map_values(|x: ImageResource| x.image),
{
    let mut out: Vec<ImageRaw> = Vec::new();
    let n = v.len();
    for i in 0..n
        invariant
            n == v@.len(),
            out@ == v@.take(i as int).map_values(|x: ImageResource| x.image),
    {
        out.push(v[i].image);
        proof {
            assert(v@.take(i + 1).map_values(|x: ImageResource| x.image)
                =~= v@.take(i as int).map_values(|x: ImageResource| x.image).push(v@[i as int].image));
        }
    }
    proof {
        assert(v@.take(n as int) =~= v@);
    }
    out
}

/// The raw shader module of each shader module, in order.
fn raw_shader_modules_of(v: Vec<ShaderModuleResource>) -> (r: Vec<u64>)
    ensures
        r@ == v@.map_values(|x: ShaderModuleResource| x.shader_module),
{
    let mut out: Vec<u64> = Vec::new();
    let n = v.len();
    for i in 0..n
        invariant
            n == v@.len(),
            out@ == v@.take(i as int).map_values(|x: ShaderModuleResource| x.shader_module),
    {
        out.push(v[i].shader_module);
        proof {
            assert(v@.take(i + 1).map_values(|x: ShaderModuleResource| x.shader_module)
                =~= v@.take(i as int).map_values(|x: ShaderModuleResource| x.shader_module).push(v@[i as int].shader_module));
        }
    }
    proof {
        assert(v@.take(n as int) =~= v@);
    }
    out
}

/// The raw renderpass of each renderpass, in order.
fn raw_render_passes_of(v: Vec<RenderPassResource>) -> (r: Vec<u64>)
    ensures
        r@ == v@.map_values(|x: RenderPassResource| x.renderpass),
{
    let mut out: Vec<u64> = Vec::new();
    let n = v.len();
    for i in 0..n
        invariant
            n == v@.len(),
            out@ == v@.take(i as int).map_values(|x: RenderPassResource| x.renderpass),
    {
        out.push(v[i].renderpass);
        proof {
            assert(v@.take(i + 1).map_values(|x: RenderPassResource| x.renderpass)
                =~= v@.take(i as int).map_values(|x: RenderPassResource| x.renderpass).push(v@[i as int].renderpass));
        }
    }
    proof {
        assert(v@.take(n as int) =~= v@);
    }
    out
}


} // verus!
