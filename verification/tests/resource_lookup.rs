use rafx_framework::descriptions::{
    ComponentMapping, DescriptorSetLayout, DescriptorSetLayoutBinding, FixedFunctionState, FramebufferMeta,
    ImageViewMeta, PipelineLayout, Sampler, ShaderModule, ShaderModuleMeta, SwapchainSurfaceInfo,
};
use rafx_framework::graph::ImageSubresourceRange;
use rafx_framework::image_spec::Extent2D;
use rafx_framework::output_passes::RenderPassDescription;
use rafx_framework::resource_lookup::{
    ResourceHash, ResourceId, ResourceLookup, ResourceLookupMetric, VkError, VK_ERROR_UNKNOWN,
};
use rafx_framework::resource_set::{BufferKey, BufferRaw, ImageKey, ImageRaw, RenderPassKey, ResourceLookupSet, VkImage};
use std::cell::Cell;

#[test]
fn hashing_a_key_is_deterministic_and_tells_keys_apart() {
    let a = ResourceHash::from_key(&ImageKey { id: 1 });
    let b = ResourceHash::from_key(&ImageKey { id: 1 });
    let c = ResourceHash::from_key(&ImageKey { id: 2 });
    assert_eq!(a, b);
    assert_ne!(a, c);
    // The hash is not the key's own value.
    assert_ne!(ResourceHash::from_key(&7u64), ResourceHash(7));
}

#[test]
fn resource_ids_and_hashes_convert_both_ways() {
    let h: ResourceHash = ResourceId(42).into();
    assert_eq!(h, ResourceHash(42));
    let id: ResourceId = h.into();
    assert_eq!(id, ResourceId(42));
}

#[test]
fn get_or_create_creates_once_and_then_hands_out_the_same_resource() {
    let mut lookup: ResourceLookup<u32, u64> = ResourceLookup::new(2);
    let hash = ResourceHash::from_key(&5u32);
    let created = Cell::new(0);
    let a = lookup
        .get_or_create(hash, &5, || {
            created.set(created.get() + 1);
            Ok(1000)
        })
        .unwrap();
    let b = lookup
        .get_or_create(hash, &5, || {
            created.set(created.get() + 1);
            Ok(2000)
        })
        .unwrap();
    assert_eq!(created.get(), 1);
    assert_eq!(lookup.resource(&a), Some(&1000));
    assert_eq!(lookup.resource(&b), Some(&1000));
    assert_eq!(lookup.strong_count(hash), 2);
    let c = lookup.get(hash, &5).unwrap();
    assert_eq!(c.resource_hash(), hash);
    assert_eq!(lookup.strong_count(hash), 3);
    assert_eq!(lookup.metrics().count, 1);
}

#[test]
fn a_failed_create_leaves_nothing_behind() {
    let mut lookup: ResourceLookup<u32, u64> = ResourceLookup::new(2);
    let hash = ResourceHash::from_key(&9u32);
    let r = lookup.get_or_create(hash, &9, || Err(VkError(-2)));
    assert_eq!(r.err().map(|e| e.0), Some(-2));
    assert!(lookup.get(hash, &9).is_none());
    assert_eq!(lookup.metrics().count, 0);
}

#[test]
fn dropped_resources_are_released_after_the_frames_in_flight() {
    let mut lookup: ResourceLookup<u32, u64> = ResourceLookup::new(2);
    let hash = ResourceHash::from_key(&1u32);
    let a = lookup.get_or_create(hash, &1, || Ok(11)).unwrap();
    let b = lookup.clone_arc(&a).unwrap();
    lookup.drop_arc(a);
    // Still has a handle: nothing is retired.
    assert!(lookup.on_frame_complete().is_empty());
    assert!(lookup.is_live_hash(hash));
    lookup.drop_arc(b);
    assert!(!lookup.is_live_hash(hash));
    assert!(lookup.get(hash, &1).is_none());
    // Retired on the next frame, released on the second.
    assert!(lookup.on_frame_complete().is_empty());
    assert_eq!(lookup.metrics().count, 0);
    assert_eq!(lookup.on_frame_complete(), vec![11]);
    assert!(lookup.on_frame_complete().is_empty());
}

#[test]
fn a_dropped_resource_is_recreated_rather_than_revived() {
    let mut lookup: ResourceLookup<u32, u64> = ResourceLookup::new(3);
    let hash = ResourceHash::from_key(&1u32);
    let a = lookup.get_or_create(hash, &1, || Ok(11)).unwrap();
    lookup.drop_arc(a);
    let b = lookup.get_or_create(hash, &1, || Ok(12)).unwrap();
    assert_eq!(lookup.resource(&b), Some(&12));
    // The old one waits out its frames.
    assert!(lookup.on_frame_complete().is_empty());
    assert!(lookup.on_frame_complete().is_empty());
    assert_eq!(lookup.on_frame_complete(), vec![11]);
}

#[test]
fn destroy_releases_everything_retired_and_reports_leaks() {
    let mut lookup: ResourceLookup<u32, u64> = ResourceLookup::new(3);
    let h1 = ResourceHash::from_key(&1u32);
    let h2 = ResourceHash::from_key(&2u32);
    let a = lookup.get_or_create(h1, &1, || Ok(11)).unwrap();
    let _kept = lookup.get_or_create(h2, &2, || Ok(22)).unwrap();
    lookup.drop_arc(a);
    let (released, leaked) = lookup.destroy();
    assert_eq!(released, vec![11]);
    assert_eq!(leaked, 1);
}

#[test]
fn metrics_count_the_use_of_the_last_completed_frame() {
    let mut lookup: ResourceLookup<u32, u64> = ResourceLookup::new(1);
    let hash = ResourceHash::from_key(&1u32);
    let _a = lookup.get_or_create(hash, &1, || Ok(1)).unwrap();
    let _b = lookup.get(hash, &1).unwrap();
    assert_eq!(lookup.metrics(), ResourceLookupMetric { count: 1, previous_frame_lock_call_count: 0 });
    lookup.on_frame_complete();
    // Two calls before the frame, then the frame itself, plus one.
    assert_eq!(lookup.metrics().previous_frame_lock_call_count, 4);
}

fn surface() -> SwapchainSurfaceInfo {
    SwapchainSurfaceInfo {
        extents: Extent2D { width: 640, height: 480 },
        msaa_level: 1,
        surface_format: 44,
        surface_color_space: 0,
        color_format: 44,
        depth_format: 126,
    }
}

fn empty_renderpass() -> RenderPassDescription {
    RenderPassDescription { attachments: vec![], subpasses: vec![], dependencies: vec![] }
}

fn view_meta() -> ImageViewMeta {
    ImageViewMeta {
        view_type: 1,
        format: 44,
        components: ComponentMapping { r: 0, g: 0, b: 0, a: 0 },
        subresource_range: ImageSubresourceRange { aspect_mask: 1, base_mip_level: 0, level_count: 1, base_array_layer: 0, layer_count: 1 },
    }
}

#[test]
fn images_and_buffers_get_consecutive_keys() {
    let mut set = ResourceLookupSet::new(2);
    let _a = set.insert_raw_image(ImageRaw { image: 1, allocation: 10 }).unwrap();
    let _b = set.insert_raw_image(ImageRaw { image: 2, allocation: 20 }).unwrap();
    assert_eq!(set.next_image_id, 2);
    let (k0, _) = set.insert_buffer(BufferRaw { buffer: 5, allocation: 50 }).unwrap();
    let (k1, _) = set.insert_buffer(BufferRaw { buffer: 6, allocation: 60 }).unwrap();
    assert_eq!(k0, BufferKey { id: 0 });
    assert_eq!(k1, BufferKey { id: 1 });
    let m = set.metrics();
    assert_eq!(m.image_metrics.count, 2);
    assert_eq!(m.buffer_metrics.count, 2);
}

#[test]
fn an_inserted_image_gives_up_its_raw_image() {
    let mut set = ResourceLookupSet::new(2);
    let raw = ImageRaw { image: 3, allocation: 30 };
    let arc = set.insert_image(VkImage { raw: Some(raw) }).unwrap();
    let stored = set.images.resource(&arc).unwrap();
    assert_eq!(stored.image, raw);
    assert_eq!(stored.image_key, Some(ImageKey { id: 0 }));
    assert_eq!(set.next_image_id, 1);
}

#[test]
fn image_views_of_dynamic_images_are_refused() {
    let mut set = ResourceLookupSet::new(2);
    let image = set.insert_raw_image(ImageRaw { image: 1, allocation: 10 }).unwrap();
    // A view of a keyed image is created once.
    let v1 = set.get_or_create_image_view(&image, &view_meta(), || Ok(100)).unwrap();
    let v2 = set.get_or_create_image_view(&image, &view_meta(), || Ok(200)).unwrap();
    assert_eq!(v1.resource_hash(), v2.resource_hash());
    assert_eq!(set.image_views.resource(&v1).unwrap().image_view, 100);
    // The view keeps a handle to its image.
    assert_eq!(set.images.strong_count(image.resource_hash()), 2);
    // An image without a key (one not inserted through the set) cannot get a view here.
    let dynamic_hash = ResourceHash::from_key(&1234u64);
    let dynamic = set
        .images
        .get_or_create(dynamic_hash, &ImageKey { id: 999 }, || {
            Ok(rafx_framework::resource_set::ImageResource { image: ImageRaw { image: 3, allocation: 30 }, image_key: None })
        })
        .unwrap();
    let r = set.get_or_create_image_view(&dynamic, &view_meta(), || Ok(300));
    assert_eq!(r.err(), Some(VkError(VK_ERROR_UNKNOWN)));
}

#[test]
fn renderpasses_are_deduplicated_by_description_and_surface() {
    let mut set = ResourceLookupSet::new(2);
    let a = set.get_or_create_renderpass(&empty_renderpass(), &surface(), || Ok(7)).unwrap();
    let b = set.get_or_create_renderpass(&empty_renderpass(), &surface(), || Ok(8)).unwrap();
    assert_eq!(a.resource_hash(), b.resource_hash());
    let res = set.render_passes.resource(&a).unwrap();
    assert_eq!(res.renderpass, 7);
    assert_eq!(res.renderpass_key.renderpass_def(), &empty_renderpass());
    let mut other = surface();
    other.extents = Extent2D { width: 1, height: 1 };
    let c = set.get_or_create_renderpass(&empty_renderpass(), &other, || Ok(9)).unwrap();
    assert_ne!(a.resource_hash(), c.resource_hash());
    assert_eq!(set.metrics().renderpass_metrics.count, 2);
    let key = RenderPassKey { dsc: empty_renderpass(), swapchain_surface_info: surface() };
    assert_eq!(key.renderpass_def().attachments.len(), 0);
}

#[test]
fn framebuffers_need_keyed_views_and_keep_their_handles() {
    let mut set = ResourceLookupSet::new(2);
    let image = set.insert_raw_image(ImageRaw { image: 1, allocation: 10 }).unwrap();
    let view = set.get_or_create_image_view(&image, &view_meta(), || Ok(100)).unwrap();
    let rp = set.get_or_create_renderpass(&empty_renderpass(), &surface(), || Ok(7)).unwrap();
    let rp_hash = rp.resource_hash();
    let meta = FramebufferMeta { width: 640, height: 480, layers: 1 };
    let fb = set.get_or_create_framebuffer(rp, &vec![view], &meta, || Ok(55)).unwrap();
    let res = set.framebuffers.resource(&fb).unwrap();
    assert_eq!(res.framebuffer, 55);
    assert_eq!(res.framebuffer_key.framebuffer_meta, meta);
    assert_eq!(res.attachments.len(), 1);
    assert_eq!(set.render_passes.strong_count(rp_hash), 1);
}

#[test]
fn samplers_of_a_layout_are_shared_and_kept_once() {
    let mut set = ResourceLookupSet::new(2);
    let sampler = Sampler {
        mag_filter: 1,
        min_filter: 1,
        mipmap_mode: 0,
        address_mode_u: 0,
        address_mode_v: 0,
        address_mode_w: 0,
        mip_lod_bias_bits: 0,
        anisotropy_enable: false,
        max_anisotropy_bits: 0,
        compare_enable: false,
        compare_op: 0,
        min_lod_bits: 0,
        max_lod_bits: 0,
        border_color: 0,
        unnormalized_coordinates: false,
    };
    let layout = DescriptorSetLayout {
        descriptor_set_layout_bindings: vec![DescriptorSetLayoutBinding {
            binding: 0,
            descriptor_type: 0,
            descriptor_count: 2,
            stage_flags: 0x10,
            immutable_samplers: Some(vec![sampler, sampler]),
        }],
    };
    let samplers_created = Cell::new(0);
    let create_sampler = |_s: &Sampler| {
        samplers_created.set(samplers_created.get() + 1);
        Ok::<u64, VkError>(500)
    };
    let seen = Cell::new(0usize);
    let dsl = set
        .get_or_create_descriptor_set_layout(&layout, &create_sampler, |objs: &Vec<Option<Vec<u64>>>| {
            seen.set(objs[0].as_ref().unwrap().len());
            Ok(600)
        })
        .unwrap();
    assert_eq!(samplers_created.get(), 1);
    assert_eq!(seen.get(), 2);
    let res = set.descriptor_set_layouts.resource(&dsl).unwrap();
    assert_eq!(res.descriptor_set_layout, 600);
    assert_eq!(res.immutable_samplers.len(), 1);
    assert_eq!(set.metrics().sampler_metrics.count, 1);

    let pipeline_layout = PipelineLayout { descriptor_set_layouts: vec![layout.clone()], push_constant_ranges: vec![] };
    let create_dsl = |_d: &DescriptorSetLayout, _o: &Vec<Option<Vec<u64>>>| Ok::<u64, VkError>(601);
    let pl = set
        .get_or_create_pipeline_layout(&pipeline_layout, &create_sampler, &create_dsl, |raws: &Vec<u64>| {
            assert_eq!(raws, &vec![600]);
            Ok(700)
        })
        .unwrap();
    assert_eq!(set.pipeline_layouts.resource(&pl).unwrap().pipeline_layout, 700);
    // The existing descriptor set layout was reused.
    assert_eq!(set.metrics().descriptor_set_layout_metrics.count, 1);

    let sm = set.get_or_create_shader_module(&ShaderModule { code_hash: 3, code: vec![1, 2, 3] }, || Ok(800)).unwrap();
    let rp = set.get_or_create_renderpass(&empty_renderpass(), &surface(), || Ok(7)).unwrap();
    let mp = set
        .get_or_create_material_pass(
            vec![sm],
            vec![ShaderModuleMeta { stage: 1, entry_name: "main".to_string() }],
            pl,
            FixedFunctionState { encoded: vec![0] },
        )
        .unwrap();
    let mp_res = set.material_passes.resource(&mp).unwrap();
    assert_eq!(mp_res.shader_module_vk_objs, vec![800]);
    let gp = set.get_or_create_graphics_pipeline(&mp, &rp, || Ok(vec![900])).unwrap();
    assert_eq!(set.graphics_pipelines.resource(&gp).unwrap().pipelines, vec![900]);
}

#[test]
fn released_framebuffers_give_back_the_handles_they_held() {
    let mut set = ResourceLookupSet::new(1);
    let image = set.insert_raw_image(ImageRaw { image: 1, allocation: 10 }).unwrap();
    let view = set.get_or_create_image_view(&image, &view_meta(), || Ok(100)).unwrap();
    let view_hash = view.resource_hash();
    let rp = set.get_or_create_renderpass(&empty_renderpass(), &surface(), || Ok(7)).unwrap();
    let rp_hash = rp.resource_hash();
    let meta = FramebufferMeta { width: 640, height: 480, layers: 1 };
    let fb = set.get_or_create_framebuffer(rp, &vec![view], &meta, || Ok(55)).unwrap();
    assert_eq!(set.image_views.strong_count(view_hash), 2);
    set.framebuffers.drop_arc(fb);
    let released = set.on_frame_complete();
    assert_eq!(released.framebuffers.len(), 1);
    let objects = set.release_held_handles(released);
    assert_eq!(objects.framebuffers, vec![55]);
    assert_eq!(set.render_passes.strong_count(rp_hash), 0);
    assert_eq!(set.image_views.strong_count(view_hash), 1);
}

#[test]
fn a_framebuffer_key_keeps_the_keys_of_its_views() {
    let mut set = ResourceLookupSet::new(2);
    let image = set.insert_raw_image(ImageRaw { image: 1, allocation: 10 }).unwrap();
    let view = set.get_or_create_image_view(&image, &view_meta(), || Ok(100)).unwrap();
    let view_key = set.image_views.resource(&view).unwrap().image_view_key.unwrap();
    let rp = set.get_or_create_renderpass(&empty_renderpass(), &surface(), || Ok(7)).unwrap();
    let meta = FramebufferMeta { width: 8, height: 8, layers: 1 };
    let fb = set.get_or_create_framebuffer(rp, &vec![view], &meta, || Ok(56)).unwrap();
    let res = set.framebuffers.resource(&fb).unwrap();
    assert_eq!(res.framebuffer_key.image_view_keys, vec![view_key]);
    assert_eq!(res.framebuffer_key.renderpass, empty_renderpass());
}

#[test]
fn destroying_the_set_releases_what_only_released_resources_used() {
    let mut set = ResourceLookupSet::new(2);
    let image = set.insert_raw_image(ImageRaw { image: 1, allocation: 10 }).unwrap();
    let view = set.get_or_create_image_view(&image, &view_meta(), || Ok(100)).unwrap();
    let rp = set.get_or_create_renderpass(&empty_renderpass(), &surface(), || Ok(7)).unwrap();
    let meta = FramebufferMeta { width: 640, height: 480, layers: 1 };
    let fb = set.get_or_create_framebuffer(rp, &vec![view], &meta, || Ok(55)).unwrap();
    // Only the framebuffer holds the renderpass now.
    set.framebuffers.drop_arc(fb);
    let (objects, leaked) = set.destroy();
    assert_eq!(objects.framebuffers, vec![55]);
    assert_eq!(objects.render_passes, vec![7]);
    assert_eq!(leaked.renderpass_metrics.count, 0);
    assert_eq!(leaked.framebuffer_metrics.count, 0);
    // The view and the image are still held by the caller.
    assert_eq!(leaked.image_view_metrics.count, 1);
    assert_eq!(leaked.image_metrics.count, 1);
    let _ = image;
}

#[test]
fn a_new_set_counts_ids_from_zero() {
    let mut set = ResourceLookupSet::new(2);
    assert_eq!(set.next_image_id, 0);
    assert_eq!(set.next_buffer_id, 0);
    let m = set.metrics();
    assert_eq!(m.shader_module_metrics, ResourceLookupMetric { count: 0, previous_frame_lock_call_count: 0 });
    let (key, _) = set.insert_buffer(BufferRaw { buffer: 5, allocation: 50 }).unwrap();
    assert_eq!(key, BufferKey { id: 0 });
}

#[test]
fn checked_entry_points_hand_out_resources_of_their_own_key() {
    let mut set = ResourceLookupSet::new(2);
    let def = ShaderModule { code_hash: 9, code: vec![1, 2, 3] };
    let a = set.checked_get_or_create_shader_module(&def, || Ok(70)).unwrap().unwrap();
    let b = set.checked_get_or_create_shader_module(&def, || Ok(71)).unwrap().unwrap();
    assert_eq!(a.resource_hash(), b.resource_hash());
    assert_eq!(set.shader_modules.resource(&b).unwrap().shader_module, 70);
    let image = set.checked_insert_raw_image(ImageRaw { image: 4, allocation: 40 }).unwrap().unwrap();
    assert_eq!(set.images.resource(&image).unwrap().image_key, Some(ImageKey { id: 0 }));
    let v1 = set.checked_get_or_create_image_view(&image, &view_meta(), || Ok(100)).unwrap().unwrap();
    let v2 = set.checked_get_or_create_image_view(&image, &view_meta(), || Ok(200)).unwrap().unwrap();
    assert_eq!(v1.resource_hash(), v2.resource_hash());
    assert_eq!(set.image_views.resource(&v2).unwrap().image_view, 100);
}
