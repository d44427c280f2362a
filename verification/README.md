# rafx_framework

Render graph planning and GPU resource bookkeeping, verified with Verus.

- `src/graph.rs`, `node_order.rs`, `constraints.rs`, `resolves.rs`, `virtual_images.rs`,
  `passes.rs`, `physical_images.rs`, `node_barriers.rs`, `pass_barriers.rs`,
  `output_passes.rs`, `plan.rs`: the render graph and the stages that plan it into
  renderpasses, physical images and barriers (`RenderGraphPlan::new`).
- `src/resource_lookup.rs`, `resource_set.rs`, `key_hashes.rs`, `descriptions.rs`: GPU
  resources deduplicated by the hash of their key, counted handles, and deferred release.
- `src/view_masks.rs`, `egui_input.rs`: smaller helpers.
- `app/`: the parts that need a window system.

Resource handles (`ResourceArc`) are counted explicitly: a handle is given back with
`ResourceLookup::drop_arc`. A handle that simply goes out of scope keeps its resource
counted, and `ResourceLookupSet::destroy` then reports it as leaked.
