use rafx_framework::constraints::{determine_image_constraints, DetermineImageConstraintsResult};
use rafx_framework::graph::{
    ClearColorValue, RenderGraphBuilder, RenderGraphImageCreate, RenderGraphImageModify, RenderGraphImageRead,
    RenderGraphImageResource, RenderGraphImageResourceVersionInfo, RenderGraphImageSubresourceRange,
    RenderGraphImageUsage, RenderGraphImageUsageId, RenderGraphImageUsageType, RenderGraphImageUser,
    RenderGraphImageVersionId, RenderGraphNode, RenderGraphNodeId, RenderGraphOutputImage,
    RenderGraphOutputImageId, RenderGraphPassColorAttachmentInfo, RenderGraphPassResolveAttachmentInfo,
    VirtualImageId, IMAGE_VIEW_TYPE_2D,
};
use rafx_framework::image_spec::{RenderGraphImageConstraint, RenderGraphImageExtents, RenderGraphImageSpecification};
use rafx_framework::passes::RenderGraphPass;
use rafx_framework::physical_images::assign_physical_images;
use rafx_framework::plan_error::RenderGraphPlanError;
use rafx_framework::resolves::insert_resolves;
use rafx_framework::virtual_images::{assign_virtual_images, try_assign_virtual_images, AssignVirtualImagesResult};

const FORMAT_R8G8B8A8_UNORM: i32 = 37;
const LAYOUT_PRESENT_SRC: i32 = 1000001002;

fn spec_with_samples(samples: u32) -> RenderGraphImageSpecification {
    RenderGraphImageSpecification {
        samples,
        format: FORMAT_R8G8B8A8_UNORM,
        aspect_flags: 1,
        usage_flags: 0x10,
        create_flags: 0,
        extents: RenderGraphImageExtents::MatchSurface,
        layer_count: 1,
        mip_count: 1,
    }
}

fn usage(user: RenderGraphImageUser, usage_type: RenderGraphImageUsageType, index: usize) -> RenderGraphImageUsage {
    RenderGraphImageUsage {
        user,
        usage_type,
        version: RenderGraphImageVersionId { index, version: 0 },
        view_type: IMAGE_VIEW_TYPE_2D,
        subresource_range: RenderGraphImageSubresourceRange::AllMipsAllLayers,
    }
}

fn empty_node(id: usize, name: &'static str) -> RenderGraphNode {
    RenderGraphNode {
        id: RenderGraphNodeId(id),
        name: Some(name),
        image_creates: vec![],
        image_reads: vec![],
        image_modifies: vec![],
        color_attachments: vec![],
        resolve_attachments: vec![],
        depth_attachment: None,
        sampled_images: vec![],
    }
}

/// Node 0 draws image usage 0, which node 1 samples as usage 1 while drawing usage 2, the
/// graph's output (read by usage 3).
fn draw_then_sample() -> RenderGraphBuilder {
    let mut first = empty_node(0, "first");
    first.image_creates.push(RenderGraphImageCreate {
        image: RenderGraphImageUsageId(0),
        constraint: RenderGraphImageConstraint::from_specification(&spec_with_samples(1)),
    });
    first.color_attachments.push(Some(RenderGraphPassColorAttachmentInfo {
        read_image: None,
        write_image: Some(RenderGraphImageUsageId(0)),
        clear_color_value: Some(ClearColorValue { r_bits: 0, g_bits: 0, b_bits: 0, a_bits: 0 }),
    }));
    let mut second = empty_node(1, "second");
    second.image_reads.push(RenderGraphImageRead {
        image: RenderGraphImageUsageId(1),
        constraint: RenderGraphImageConstraint::empty(),
    });
    second.sampled_images.push(RenderGraphImageUsageId(1));
    second.image_creates.push(RenderGraphImageCreate {
        image: RenderGraphImageUsageId(2),
        constraint: RenderGraphImageConstraint::empty(),
    });
    second.color_attachments.push(Some(RenderGraphPassColorAttachmentInfo {
        read_image: None,
        write_image: Some(RenderGraphImageUsageId(2)),
        clear_color_value: None,
    }));
    RenderGraphBuilder {
        nodes: vec![first, second],
        image_resources: vec![
            RenderGraphImageResource {
                name: Some("scene"),
                versions: vec![RenderGraphImageResourceVersionInfo {
                    creator_node: RenderGraphNodeId(0),
                    create_usage: RenderGraphImageUsageId(0),
                    read_usages: vec![RenderGraphImageUsageId(1)],
                }],
            },
            RenderGraphImageResource {
                name: Some("final"),
                versions: vec![RenderGraphImageResourceVersionInfo {
                    creator_node: RenderGraphNodeId(1),
                    create_usage: RenderGraphImageUsageId(2),
                    read_usages: vec![RenderGraphImageUsageId(3)],
                }],
            },
        ],
        image_usages: vec![
            usage(RenderGraphImageUser::Node(RenderGraphNodeId(0)), RenderGraphImageUsageType::Create, 0),
            usage(RenderGraphImageUser::Node(RenderGraphNodeId(1)), RenderGraphImageUsageType::Read, 0),
            usage(RenderGraphImageUser::Node(RenderGraphNodeId(1)), RenderGraphImageUsageType::Create, 1),
            usage(RenderGraphImageUser::Output(RenderGraphOutputImageId(0)), RenderGraphImageUsageType::Output, 1),
        ],
        input_images: vec![],
        output_images: vec![RenderGraphOutputImage {
            output_image_id: RenderGraphOutputImageId(0),
            usage: RenderGraphImageUsageId(3),
            specification: spec_with_samples(1),
            final_layout: LAYOUT_PRESENT_SRC,
            dst_image: 5,
        }],
    }
}

fn order() -> Vec<RenderGraphNodeId> {
    vec![RenderGraphNodeId(0), RenderGraphNodeId(1)]
}

#[test]
fn a_multisampled_image_sampled_single_sampled_gets_a_resolve() {
    let mut graph = draw_then_sample();
    let mut results = DetermineImageConstraintsResult {
        images: vec![
            Some(spec_with_samples(4)),
            Some(spec_with_samples(1)),
            Some(spec_with_samples(1)),
            Some(spec_with_samples(1)),
        ],
    };
    insert_resolves(&mut graph, &order(), &mut results).unwrap();
    // The first node resolves its color attachment into a new, single-sampled image ...
    assert_eq!(graph.image_usages.len(), 5);
    assert_eq!(graph.nodes[0].resolve_attachments, vec![Some(RenderGraphPassResolveAttachmentInfo { write_image: RenderGraphImageUsageId(4) })]);
    assert_eq!(results.images[4], Some(spec_with_samples(1)));
    // ... which the second node now reads instead of the multisampled one.
    let resolved = graph.image_usages[4].version;
    assert_eq!(graph.image_usages[1].version, resolved);
    assert_eq!(graph.image_resources[resolved.index].versions[resolved.version].read_usages, vec![RenderGraphImageUsageId(1)]);
    assert!(graph.image_resources[0].versions[0].read_usages.is_empty());
    // Nothing else changed.
    assert_eq!(results.images[0], Some(spec_with_samples(4)));
    assert!(graph.nodes[1].resolve_attachments.is_empty());
    // Now every reader wants what is written, so the images can be shared.
    let virt = assign_virtual_images(&graph, &order(), &results);
    assert_eq!(virt.usage_to_virtual[1], virt.usage_to_virtual[4]);
    assert_ne!(virt.usage_to_virtual[0], virt.usage_to_virtual[4]);
}

#[test]
fn single_sampled_images_need_no_resolve() {
    let mut graph = draw_then_sample();
    let mut results = DetermineImageConstraintsResult { images: vec![Some(spec_with_samples(1)); 4] };
    insert_resolves(&mut graph, &order(), &mut results).unwrap();
    assert_eq!(graph.image_usages.len(), 4);
    assert!(graph.nodes[0].resolve_attachments.is_empty());
}

#[test]
fn a_color_image_without_specification_stops_the_resolves() {
    let mut graph = draw_then_sample();
    let mut results = DetermineImageConstraintsResult { images: vec![None, Some(spec_with_samples(1)), None, None] };
    let r = insert_resolves(&mut graph, &order(), &mut results);
    assert_eq!(r, Err(RenderGraphPlanError::MissingSpecification(RenderGraphImageUsageId(0))));
}

#[test]
fn readers_share_the_virtual_image_they_read() {
    let graph = draw_then_sample();
    let results = determine_image_constraints(&graph, &order());
    let virt = assign_virtual_images(&graph, &order(), &results);
    assert_eq!(virt.virtual_image_count, 2);
    assert_eq!(virt.usage_to_virtual, vec![Some(VirtualImageId(0)), Some(VirtualImageId(0)), Some(VirtualImageId(1)), Some(VirtualImageId(1))]);
}

#[test]
fn a_reader_wanting_another_specification_cannot_share() {
    let graph = draw_then_sample();
    let results = DetermineImageConstraintsResult {
        images: vec![
            Some(spec_with_samples(4)),
            Some(spec_with_samples(1)),
            Some(spec_with_samples(1)),
            Some(spec_with_samples(1)),
        ],
    };
    let r = try_assign_virtual_images(&graph, &order(), &results);
    assert_eq!(r.err(), Some(RenderGraphPlanError::IncompatibleImageSharing(RenderGraphImageUsageId(1))));
}

#[test]
fn a_modify_must_keep_the_specification() {
    let mut graph = draw_then_sample();
    // The second node modifies the sampled image instead of reading it.
    graph.nodes[1].image_reads.clear();
    graph.nodes[1].sampled_images.clear();
    graph.nodes[1].image_modifies.push(RenderGraphImageModify {
        input: RenderGraphImageUsageId(1),
        output: RenderGraphImageUsageId(2),
        constraint: RenderGraphImageConstraint::empty(),
    });
    let mut other = spec_with_samples(1);
    other.format = 50;
    let results = DetermineImageConstraintsResult {
        images: vec![Some(spec_with_samples(1)), Some(spec_with_samples(1)), Some(other), Some(other)],
    };
    let r = try_assign_virtual_images(&graph, &order(), &results);
    assert_eq!(r.err(), Some(RenderGraphPlanError::ModifySpecificationMismatch(RenderGraphImageUsageId(2))));
}

#[test]
fn an_output_without_virtual_image_cannot_be_placed() {
    let graph = draw_then_sample();
    let results = determine_image_constraints(&graph, &order());
    let virt = AssignVirtualImagesResult { usage_to_virtual: vec![None; 4], virtual_image_count: 0 };
    let mut passes: Vec<RenderGraphPass> = Vec::new();
    let r = assign_physical_images(&graph, &results, &virt, &mut passes);
    assert_eq!(r.err(), Some(RenderGraphPlanError::UnassignedImage(RenderGraphImageUsageId(3))));
}

#[test]
fn outputs_sharing_a_virtual_image_are_refused() {
    let mut graph = draw_then_sample();
    graph.output_images.push(RenderGraphOutputImage {
        output_image_id: RenderGraphOutputImageId(1),
        usage: RenderGraphImageUsageId(2),
        specification: spec_with_samples(1),
        final_layout: LAYOUT_PRESENT_SRC,
        dst_image: 6,
    });
    let results = DetermineImageConstraintsResult { images: vec![Some(spec_with_samples(1)); 4] };
    let virt = AssignVirtualImagesResult {
        usage_to_virtual: vec![None, None, Some(VirtualImageId(0)), Some(VirtualImageId(0))],
        virtual_image_count: 1,
    };
    let mut passes: Vec<RenderGraphPass> = Vec::new();
    let r = assign_physical_images(&graph, &results, &virt, &mut passes);
    assert_eq!(r.err(), Some(RenderGraphPlanError::ConflictingImageAssignment(RenderGraphImageUsageId(2))));
}
