use vstd::prelude::*;
use crate::graph::{PhysicalImageId, RenderGraphImageUsageId, RenderGraphNodeId};

verus! {

/// Why a render graph could not be planned.
#[derive(Clone, Copy, Debug, PartialEq, Eq, Structural)]
pub enum RenderGraphPlanError {
    /// No specification was determined for an image usage that the plan needs.
    MissingSpecification(RenderGraphImageUsageId),
    /// The input and output of a modify have different specifications.
    ModifySpecificationMismatch(RenderGraphImageUsageId),
    /// A reader needs the image in a form the writer does not produce; the image would have to
    /// be copied, which the planner does not support.
    IncompatibleImageSharing(RenderGraphImageUsageId),
    /// The attachments of one pass do not all have the same size.
    MismatchedPassExtents(RenderGraphNodeId),
    /// A color, resolve or depth attachment names no image.
    AttachmentWithoutImage(RenderGraphNodeId),
    /// A node has resolve attachments but no color or depth attachment.
    ResolveWithoutAttachments(RenderGraphNodeId),
    /// A usage would be given an image twice.
    ConflictingImageAssignment(RenderGraphImageUsageId),
    /// A usage was never assigned an image.
    UnassignedImage(RenderGraphImageUsageId),
    /// There are more image usages than can be counted.
    TooManyImageUsages,
    /// A barrier before a pass would move an image into the undefined layout, which Vulkan
    /// does not allow.
    TransitionToUndefinedLayout(PhysicalImageId),
    /// The pass of a node cannot be turned into a renderpass: it has no size, an attachment has
    /// no image or view, or the node has no barrier for an attachment's image.
    UnconvertiblePass(RenderGraphNodeId),
}

} // verus!
