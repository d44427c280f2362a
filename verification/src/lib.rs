//! Render graph planning and GPU resource bookkeeping.
//!
//! The render graph is described as plain data (`graph`), planned into renderpasses, physical
//! images and barriers (`plan`), and GPU resources are deduplicated by key and retired after the
//! frames that may still use them have completed (`resource_lookup`).

pub mod image_spec;
pub mod graph;
pub mod node_order;
pub mod constraints;
pub mod plan_error;
pub mod resolves;
pub mod virtual_images;
pub mod passes;
pub mod physical_images;
pub mod node_barriers;
pub mod pass_barriers;
pub mod output_passes;
pub mod plan;
pub mod resource_lookup;
pub mod descriptions;
pub mod resource_set;
pub mod key_hashes;
pub mod view_masks;
pub mod egui_input;
