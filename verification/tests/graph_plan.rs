use rafx_framework::descriptions::SwapchainSurfaceInfo;
use rafx_framework::graph::{
    ClearColorValue, PhysicalImageId, RenderGraphBuilder, RenderGraphImageCreate, RenderGraphImageRead,
    RenderGraphImageResource, RenderGraphImageResourceVersionInfo, RenderGraphImageSubresourceRange,
    RenderGraphImageUsage, RenderGraphImageUsageId, RenderGraphImageUsageType, RenderGraphImageUser,
    RenderGraphImageVersionId, RenderGraphNode, RenderGraphNodeId, RenderGraphOutputImage,
    RenderGraphOutputImageId, RenderGraphPassColorAttachmentInfo, IMAGE_VIEW_TYPE_2D,
};
use rafx_framework::image_spec::{
    Extent2D, RenderGraphImageConstraint, RenderGraphImageExtents, RenderGraphImageSpecification,
};
use rafx_framework::node_barriers::{LAYOUT_COLOR_ATTACHMENT_OPTIMAL, LAYOUT_SHADER_READ_ONLY_OPTIMAL};
use rafx_framework::node_order::{can_passes_merge, determine_node_order};
use rafx_framework::output_passes::AttachmentIndex;
use rafx_framework::pass_barriers::SubpassDependencyIndex;
use rafx_framework::passes::{IMAGE_LAYOUT_UNDEFINED, LOAD_OP_CLEAR, STORE_OP_STORE};
use rafx_framework::plan::{RenderGraphPlan, RenderGraphPlanOutputImage};
use rafx_framework::plan_error::RenderGraphPlanError;

const FORMAT_R8G8B8A8_UNORM: i32 = 37;
const LAYOUT_PRESENT_SRC: i32 = 1000001002;

fn color_spec() -> RenderGraphImageSpecification {
    RenderGraphImageSpecification {
        samples: 1,
        format: FORMAT_R8G8B8A8_UNORM,
        aspect_flags: 1,
        usage_flags: 0x10,
        create_flags: 0,
        extents: RenderGraphImageExtents::MatchSurface,
        layer_count: 1,
        mip_count: 1,
    }
}

fn surface() -> SwapchainSurfaceInfo {
    SwapchainSurfaceInfo {
        extents: Extent2D { width: 800, height: 600 },
        msaa_level: 1,
        surface_format: 44,
        surface_color_space: 0,
        color_format: 44,
        depth_format: 126,
    }
}

fn usage(user: RenderGraphImageUser, usage_type: RenderGraphImageUsageType, index: usize) -> RenderGraphImageUsage {
    RenderGraphImageUsage {
        user,
        usage_type,
        version: RenderGraphImageVersionId { index, version: 0 },
        view_type: IMAGE_VIEW_TYPE_2D,
        subresource_range: RenderGraphImageSubresourceRange::AllMipsAllLayers,
    }
}

fn empty_node(id: usize, name: &'static str) -> RenderGraphNode {
    RenderGraphNode {
        id: RenderGraphNodeId(id),
        name: Some(name),
        image_creates: vec![],
        image_reads: vec![],
        image_modifies: vec![],
        color_attachments: vec![],
        resolve_attachments: vec![],
        depth_attachment: None,
        sampled_images: vec![],
    }
}

fn clear_black() -> ClearColorValue {
    ClearColorValue { r_bits: 0, g_bits: 0, b_bits: 0, a_bits: 0x3f80_0000 }
}

/// One node clears and draws into an image that is the graph's only output.
fn single_pass_graph() -> RenderGraphBuilder {
    let mut node = empty_node(0, "main");
    node.image_creates.push(RenderGraphImageCreate {
        image: RenderGraphImageUsageId(0),
        constraint: RenderGraphImageConstraint::from_specification(&color_spec()),
    });
    node.color_attachments.push(Some(RenderGraphPassColorAttachmentInfo {
        read_image: None,
        write_image: Some(RenderGraphImageUsageId(0)),
        clear_color_value: Some(clear_black()),
    }));
    RenderGraphBuilder {
        nodes: vec![node],
        image_resources: vec![RenderGraphImageResource {
            name: Some("color"),
            versions: vec![RenderGraphImageResourceVersionInfo {
                creator_node: RenderGraphNodeId(0),
                create_usage: RenderGraphImageUsageId(0),
                read_usages: vec![RenderGraphImageUsageId(1)],
            }],
        }],
        image_usages: vec![
            usage(RenderGraphImageUser::Node(RenderGraphNodeId(0)), RenderGraphImageUsageType::Create, 0),
            usage(RenderGraphImageUser::Output(RenderGraphOutputImageId(0)), RenderGraphImageUsageType::Output, 0),
        ],
        input_images: vec![],
        output_images: vec![RenderGraphOutputImage {
            output_image_id: RenderGraphOutputImageId(0),
            usage: RenderGraphImageUsageId(1),
            specification: color_spec(),
            final_layout: LAYOUT_PRESENT_SRC,
            dst_image: 77,
        }],
    }
}

/// Node 0 draws an image that node 1 samples while drawing the output; node 2 draws an image
/// nobody reads, so it is culled.
fn chain_graph() -> RenderGraphBuilder {
    let mut first = empty_node(0, "first");
    first.image_creates.push(RenderGraphImageCreate {
        image: RenderGraphImageUsageId(0),
        constraint: RenderGraphImageConstraint::from_specification(&color_spec()),
    });
    first.color_attachments.push(Some(RenderGraphPassColorAttachmentInfo {
        read_image: None,
        write_image: Some(RenderGraphImageUsageId(0)),
        clear_color_value: Some(clear_black()),
    }));
    let mut second = empty_node(1, "second");
    second.image_reads.push(RenderGraphImageRead {
        image: RenderGraphImageUsageId(1),
        constraint: RenderGraphImageConstraint::empty(),
    });
    second.sampled_images.push(RenderGraphImageUsageId(1));
    second.image_creates.push(RenderGraphImageCreate {
        image: RenderGraphImageUsageId(2),
        constraint: RenderGraphImageConstraint::empty(),
    });
    second.color_attachments.push(Some(RenderGraphPassColorAttachmentInfo {
        read_image: None,
        write_image: Some(RenderGraphImageUsageId(2)),
        clear_color_value: None,
    }));
    let mut unused = empty_node(2, "unused");
    unused.image_creates.push(RenderGraphImageCreate {
        image: RenderGraphImageUsageId(4),
        constraint: RenderGraphImageConstraint::from_specification(&color_spec()),
    });
    unused.color_attachments.push(Some(RenderGraphPassColorAttachmentInfo {
        read_image: None,
        write_image: Some(RenderGraphImageUsageId(4)),
        clear_color_value: None,
    }));
    RenderGraphBuilder {
        nodes: vec![first, second, unused],
        image_resources: vec![
            RenderGraphImageResource {
                name: Some("intermediate"),
                versions: vec![RenderGraphImageResourceVersionInfo {
                    creator_node: RenderGraphNodeId(0),
                    create_usage: RenderGraphImageUsageId(0),
                    read_usages: vec![RenderGraphImageUsageId(1)],
                }],
            },
            RenderGraphImageResource {
                name: Some("final"),
                versions: vec![RenderGraphImageResourceVersionInfo {
                    creator_node: RenderGraphNodeId(1),
                    create_usage: RenderGraphImageUsageId(2),
                    read_usages: vec![RenderGraphImageUsageId(3)],
                }],
            },
            RenderGraphImageResource {
                name: Some("unused"),
                versions: vec![RenderGraphImageResourceVersionInfo {
                    creator_node: RenderGraphNodeId(2),
                    create_usage: RenderGraphImageUsageId(4),
                    read_usages: vec![],
                }],
            },
        ],
        image_usages: vec![
            usage(RenderGraphImageUser::Node(RenderGraphNodeId(0)), RenderGraphImageUsageType::Create, 0),
            usage(RenderGraphImageUser::Node(RenderGraphNodeId(1)), RenderGraphImageUsageType::Read, 0),
            usage(RenderGraphImageUser::Node(RenderGraphNodeId(1)), RenderGraphImageUsageType::Create, 1),
            usage(RenderGraphImageUser::Output(RenderGraphOutputImageId(0)), RenderGraphImageUsageType::Output, 1),
            usage(RenderGraphImageUser::Node(RenderGraphNodeId(2)), RenderGraphImageUsageType::Create, 2),
        ],
        input_images: vec![],
        output_images: vec![RenderGraphOutputImage {
            output_image_id: RenderGraphOutputImageId(0),
            usage: RenderGraphImageUsageId(3),
            specification: color_spec(),
            final_layout: LAYOUT_PRESENT_SRC,
            dst_image: 99,
        }],
    }
}

#[test]
fn node_order_schedules_dependencies_first_and_culls_the_rest() {
    let graph = chain_graph();
    let order = determine_node_order(&graph);
    assert_eq!(order, vec![RenderGraphNodeId(0), RenderGraphNodeId(1)]);
}

#[test]
fn passes_are_never_merged() {
    let graph = chain_graph();
    assert!(!can_passes_merge(&graph, RenderGraphNodeId(0), RenderGraphNodeId(1)));
}

#[test]
fn single_pass_plan_writes_the_output() {
    let plan = RenderGraphPlan::new(single_pass_graph(), &surface()).unwrap();
    assert_eq!(plan.passes.len(), 1);
    let pass = &plan.passes[0];
    assert_eq!(pass.subpass_nodes, vec![RenderGraphNodeId(0)]);
    assert_eq!(pass.debug_name, Some("main"));
    assert_eq!(pass.extents, Extent2D { width: 800, height: 600 });
    assert_eq!(pass.description.attachments.len(), 1);
    let a = pass.description.attachments[0];
    assert_eq!(a.format, FORMAT_R8G8B8A8_UNORM);
    assert_eq!(a.load_op, LOAD_OP_CLEAR);
    assert_eq!(a.store_op, STORE_OP_STORE);
    // The first use of the image starts from the undefined layout, and the output ends in
    // the layout the caller asked for.
    assert_eq!(a.initial_layout, IMAGE_LAYOUT_UNDEFINED);
    assert_eq!(a.final_layout, LAYOUT_PRESENT_SRC);
    let subpass = &pass.description.subpasses[0];
    assert_eq!(subpass.color_attachments.len(), 1);
    assert_eq!(subpass.color_attachments[0].attachment, AttachmentIndex::Index(0));
    assert_eq!(subpass.color_attachments[0].layout, LAYOUT_COLOR_ATTACHMENT_OPTIMAL);
    assert_eq!(subpass.depth_stencil_attachment, None);
    // The layout transition is left to an external dependency of the pass.
    assert!(pass.pre_pass_barrier.is_none());
    assert_eq!(pass.description.dependencies.len(), 1);
    assert_eq!(pass.description.dependencies[0].src_subpass, SubpassDependencyIndex::External);
    assert_ne!(pass.description.dependencies[0].src_stage_mask, 0);
    // Output 0 is physical image 0 and is not allocated by the plan.
    assert_eq!(plan.image_usage_to_physical[1], Some(PhysicalImageId(0)));
    let view = plan.image_usage_to_view[1].unwrap();
    assert_eq!(plan.output_images[view.0], Some(RenderGraphPlanOutputImage { output_id: RenderGraphOutputImageId(0), dst_image: 77 }));
    assert_eq!(plan.intermediate_images, vec![None]);
    assert_eq!(plan.node_to_renderpass_index, vec![Some(0)]);
    assert_eq!(pass.clear_values.len(), 1);
}

#[test]
fn chain_plan_orders_passes_and_transitions_sampled_images() {
    let plan = RenderGraphPlan::new(chain_graph(), &surface()).unwrap();
    assert_eq!(plan.passes.len(), 2);
    assert_eq!(plan.passes[0].subpass_nodes, vec![RenderGraphNodeId(0)]);
    assert_eq!(plan.passes[1].subpass_nodes, vec![RenderGraphNodeId(1)]);
    assert_eq!(plan.node_to_renderpass_index, vec![Some(0), Some(1), None]);
    // The output gets physical image 0; the intermediate image gets its own.
    assert_eq!(plan.image_usage_to_physical[3], Some(PhysicalImageId(0)));
    assert_eq!(plan.intermediate_images.len(), 2);
    assert_eq!(plan.intermediate_images[0], None);
    assert_eq!(plan.intermediate_images[1], Some(color_spec()));
    // The second pass samples what the first drew: that needs a barrier before the pass which
    // moves the image into the shader-read layout.
    let barrier = plan.passes[1].pre_pass_barrier.as_ref().unwrap();
    assert!(barrier
        .image_barriers
        .iter()
        .any(|b| b.old_layout == LAYOUT_COLOR_ATTACHMENT_OPTIMAL && b.new_layout == LAYOUT_SHADER_READ_ONLY_OPTIMAL));
    assert!(plan.passes[1].description.dependencies.is_empty());
    assert_ne!(barrier.src_stage, 0);
    assert_eq!(plan.image_usage_to_physical[4], None);
}

