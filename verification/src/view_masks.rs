use vstd::prelude::*;

verus! {

/// The rendering options that decide what the main view draws.
#[derive(Clone, Copy, Debug, PartialEq, Eq, Structural)]
pub struct RenderOptions {
    pub show_wireframes: bool,
    pub show_debug3d: bool,
    pub show_text: bool,
    pub show_skybox: bool,
    pub enable_lighting: bool,
    pub enable_textures: bool,
    pub show_shadows: bool,
}

#[derive(Clone, Copy, Debug, PartialEq, Eq, Structural)]
pub enum RenderPhase {
    DepthPrepass,
    Opaque,
    Transparent,
    Wireframe,
    DebugPip,
    Ui,
}

#[derive(Clone, Copy, Debug, PartialEq, Eq, Structural)]
pub enum RenderFeature {
    Mesh,
    Sprite,
    TileLayer,
    DebugPip,
    Egui,
    Text,
    Debug3D,
    Skybox,
}

#[derive(Clone, Copy, Debug, PartialEq, Eq, Structural)]
pub enum RenderFeatureFlag {
    MeshWireframe,
    MeshUnlit,
    MeshUntextured,
    MeshNoShadows,
}

/// The render phases a view draws.
#[derive(Clone, Copy, Debug, PartialEq, Eq, Structural)]
pub struct RenderPhaseMaskBuilder {
    pub depth_prepass: bool,
    pub opaque: bool,
    pub transparent: bool,
    pub wireframe: bool,
    pub debug_pip: bool,
    pub ui: bool,
}

/// The render features a view draws.
#[derive(Clone, Copy, Debug, PartialEq, Eq, Structural)]
pub struct RenderFeatureMaskBuilder {
    pub mesh: bool,
    pub sprite: bool,
    pub tile_layer: bool,
    pub debug_pip: bool,
    pub egui: bool,
    pub text: bool,
    pub debug3d: bool,
    pub skybox: bool,
}

/// The feature flags a view sets.
#[derive(Clone, Copy, Debug, PartialEq, Eq, Structural)]
pub struct RenderFeatureFlagMaskBuilder {
    pub mesh_wireframe: bool,
    pub mesh_unlit: bool,
    pub mesh_untextured: bool,
    pub mesh_no_shadows: bool,
}

impl RenderPhaseMaskBuilder {
    pub open spec fn spec_contains(self, phase: RenderPhase) -> bool {
        match phase {
            RenderPhase::DepthPrepass => self.depth_prepass,
            RenderPhase::Opaque => self.opaque,
            RenderPhase::Transparent => self.transparent,
            RenderPhase::Wireframe => self.wireframe,
            RenderPhase::DebugPip => self.debug_pip,
            RenderPhase::Ui => self.ui,
        }
    }

    /// The mask with no phase.
    pub fn empty() -> (r: Self)
        ensures
            forall|p: RenderPhase| !r.spec_contains(p),
    {
        RenderPhaseMaskBuilder {
            depth_prepass: false,
            opaque: false,
            transparent: false,
            wireframe: false,
            debug_pip: false,
            ui: false,
        }
    }

    /// The mask with `phase` added.
    pub fn add_render_phase(self, phase: RenderPhase) -> (r: Self)
        ensures
            forall|p: RenderPhase| r.spec_contains(p) == (self.spec_contains(p) || p == phase),
    {
        match phase {
            RenderPhase::DepthPrepass => RenderPhaseMaskBuilder { depth_prepass: true, ..self },
            RenderPhase::Opaque => RenderPhaseMaskBuilder { opaque: true, ..self },
            RenderPhase::Transparent => RenderPhaseMaskBuilder { transparent: true, ..self },
            RenderPhase::Wireframe => RenderPhaseMaskBuilder { wireframe: true, ..self },
            RenderPhase::DebugPip => RenderPhaseMaskBuilder { debug_pip: true, ..self },
            RenderPhase::Ui => RenderPhaseMaskBuilder { ui: true, ..self },
        }
    }

    pub fn contains(&self, phase: RenderPhase) -> (r: bool)
        ensures
            r == self.spec_contains(phase),
    {
        match phase {
            RenderPhase::DepthPrepass => self.depth_prepass,
            RenderPhase::Opaque => self.opaque,
            RenderPhase::Transparent => self.transparent,
            RenderPhase::Wireframe => self.wireframe,
            RenderPhase::DebugPip => self.debug_pip,
            RenderPhase::Ui => self.ui,
        }
    }
}

impl RenderFeatureMaskBuilder {
    pub open spec fn spec_contains(self, feature: RenderFeature) -> bool {
        match feature {
            RenderFeature::Mesh => self.mesh,
            RenderFeature::Sprite => self.sprite,
            RenderFeature::TileLayer => self.tile_layer,
            RenderFeature::DebugPip => self.debug_pip,
            RenderFeature::Egui => self.egui,
            RenderFeature::Text => self.text,
            RenderFeature::Debug3D => self.debug3d,
            RenderFeature::Skybox => self.skybox,
        }
    }

    /// The mask with no feature.
    pub fn empty() -> (r: Self)
        ensures
            forall|f: RenderFeature| !r.spec_contains(f),
    {
        RenderFeatureMaskBuilder {
            mesh: false,
            sprite: false,
            tile_layer: false,
            debug_pip: false,
            egui: false,
            text: false,
            debug3d: false,
            skybox: false,
        }
    }

    /// The mask with `feature` added.
    pub fn add_render_feature(self, feature: RenderFeature) -> (r: Self)
        ensures
            forall|f: RenderFeature| r.spec_contains(f) == (self.spec_contains(f) || f == feature),
    {
        match feature {
            RenderFeature::Mesh => RenderFeatureMaskBuilder { mesh: true, ..self },
            RenderFeature::Sprite => RenderFeatureMaskBuilder { sprite: true, ..self },
            RenderFeature::TileLayer => RenderFeatureMaskBuilder { tile_layer: true, ..self },
            RenderFeature::DebugPip => RenderFeatureMaskBuilder { debug_pip: true, ..self },
            RenderFeature::Egui => RenderFeatureMaskBuilder { egui: true, ..self },
            RenderFeature::Text => RenderFeatureMaskBuilder { text: true, ..self },
            RenderFeature::Debug3D => RenderFeatureMaskBuilder { debug3d: true, ..self },
            RenderFeature::Skybox => RenderFeatureMaskBuilder { skybox: true, ..self },
        }
    }

    pub fn contains(&self, feature: RenderFeature) -> (r: bool)
        ensures
            r == self.spec_contains(feature),
    {
        match feature {
            RenderFeature::Mesh => self.mesh,
            RenderFeature::Sprite => self.sprite,
            RenderFeature::TileLayer => self.tile_layer,
            RenderFeature::DebugPip => self.debug_pip,
            RenderFeature::Egui => self.egui,
            RenderFeature::Text => self.text,
            RenderFeature::Debug3D => self.debug3d,
            RenderFeature::Skybox => self.skybox,
        }
    }
}

impl RenderFeatureFlagMaskBuilder {
    pub open spec fn spec_contains(self, flag: RenderFeatureFlag) -> bool {
        match flag {
            RenderFeatureFlag::MeshWireframe => self.mesh_wireframe,
            RenderFeatureFlag::MeshUnlit => self.mesh_unlit,
            RenderFeatureFlag::MeshUntextured => self.mesh_untextured,
            RenderFeatureFlag::MeshNoShadows => self.mesh_no_shadows,
        }
    }

    /// The mask with no flag.
    pub fn empty() -> (r: Self)
        ensures
            forall|f: RenderFeatureFlag| !r.spec_contains(f),
    {
        RenderFeatureFlagMaskBuilder { mesh_wireframe: false, mesh_unlit: false, mesh_untextured: false, mesh_no_shadows: false }
    }

    /// The mask with `flag` added.
    pub fn add_render_feature_flag(self, flag: RenderFeatureFlag) -> (r: Self)
        ensures
            forall|f: RenderFeatureFlag| r.spec_contains(f) == (self.spec_contains(f) || f == flag),
    {
        match flag {
            RenderFeatureFlag::MeshWireframe => RenderFeatureFlagMaskBuilder { mesh_wireframe: true, ..self },
            RenderFeatureFlag::MeshUnlit => RenderFeatureFlagMaskBuilder { mesh_unlit: true, ..self },
            RenderFeatureFlag::MeshUntextured => RenderFeatureFlagMaskBuilder { mesh_untextured: true, ..self },
            RenderFeatureFlag::MeshNoShadows => RenderFeatureFlagMaskBuilder { mesh_no_shadows: true, ..self },
        }
    }

    pub fn contains(&self, flag: RenderFeatureFlag) -> (r: bool)
        ensures
            r == self.spec_contains(flag),
    {
        match flag {
            RenderFeatureFlag::MeshWireframe => self.mesh_wireframe,
            RenderFeatureFlag::MeshUnlit => self.mesh_unlit,
            RenderFeatureFlag::MeshUntextured => self.mesh_untextured,
            RenderFeatureFlag::MeshNoShadows => self.mesh_no_shadows,
        }
    }
}

/// The phases, features and feature flags of the main view: every phase; meshes, sprites,
/// tile layers, debug pips, and egui when it is built in; text, 3D debug drawing and the
/// skybox when shown; and the mesh flags for wireframes, no lighting, no textures and no
/// shadows as the options ask.
pub fn default_main_view_masks(
    render_options: &RenderOptions,
    with_egui: bool,
) -> (r: (RenderPhaseMaskBuilder, RenderFeatureMaskBuilder, RenderFeatureFlagMaskBuilder))
    ensures
        forall|p: RenderPhase| r.0.spec_contains(p),
        forall|f: RenderFeature| #[trigger] r.1.spec_contains(f) == match f {
            RenderFeature::Mesh | RenderFeature::Sprite | RenderFeature::TileLayer | RenderFeature::DebugPip => true,
            RenderFeature::Egui => with_egui,
            RenderFeature::Text => render_options.show_text,
            RenderFeature::Debug3D => render_options.show_debug3d,
            RenderFeature::Skybox => render_options.show_skybox,
        },
        forall|f: RenderFeatureFlag| #[trigger] r.2.spec_contains(f) == match f {
            RenderFeatureFlag::MeshWireframe => render_options.show_wireframes,
            RenderFeatureFlag::MeshUnlit => !render_options.enable_lighting,
            RenderFeatureFlag::MeshUntextured => !render_options.enable_textures,
            RenderFeatureFlag::MeshNoShadows => !render_options.show_shadows,
        },
{
    let phase_mask_builder = RenderPhaseMaskBuilder::empty()
        .add_render_phase(RenderPhase::DepthPrepass)
        .add_render_phase(RenderPhase::Opaque)
        .add_render_phase(RenderPhase::Transparent)
        .add_render_phase(RenderPhase::Wireframe)
        .add_render_phase(RenderPhase::DebugPip)
        .add_render_phase(RenderPhase::Ui);

    let mut feature_mask_builder = RenderFeatureMaskBuilder::empty()
        .add_render_feature(RenderFeature::Mesh)
        .add_render_feature(RenderFeature::Sprite)
        .add_render_feature(RenderFeature::TileLayer)
        .add_render_feature(RenderFeature::DebugPip);

    if with_egui {
        feature_mask_builder = feature_mask_builder.add_render_feature(RenderFeature::Egui);
    }

    if render_options.show_text {
        feature_mask_builder = feature_mask_builder.add_render_feature(RenderFeature::Text);
    }

    if render_options.show_debug3d {
        feature_mask_builder = feature_mask_builder.add_render_feature(RenderFeature::Debug3D);
    }

    if render_options.show_skybox {
        feature_mask_builder = feature_mask_builder.add_render_feature(RenderFeature::Skybox);
    }

    let mut feature_flag_mask_builder = RenderFeatureFlagMaskBuilder::empty();

    if render_options.show_wireframes {
        feature_flag_mask_builder = feature_flag_mask_builder.add_render_feature_flag(RenderFeatureFlag::MeshWireframe);
    }

    if !render_options.enable_lighting {
        feature_flag_mask_builder = feature_flag_mask_builder.add_render_feature_flag(RenderFeatureFlag::MeshUnlit);
    }

    if !render_options.enable_textures {
        feature_flag_mask_builder = feature_flag_mask_builder.add_render_feature_flag(RenderFeatureFlag::MeshUntextured);
    }

    if !render_options.show_shadows {
        feature_flag_mask_builder = feature_flag_mask_builder.add_render_feature_flag(RenderFeatureFlag::MeshNoShadows);
    }

    (phase_mask_builder, feature_mask_builder, feature_flag_mask_builder)
}

} // verus!
