//! The materialized render configuration: the immutable value the engine
//! consumes. Built exactly once per render from the persisted scene, the
//! asset bundle and the requested width; texture references are resolved to
//! bundle indices here, and the output height is derived from the camera's
//! aspect ratio.

use vstd::prelude::*;

use crate::assets::{refs_resolve, AssetBundle, LoadedAsset};
use crate::scene::{Camera, Color, PersistedScene, Radiance, SceneV, Shape};

verus! {

/// A surface's resolved material: a flat radiance, or a texture resolved to
/// an index into the bundled assets.
#[derive(Clone, Copy, Debug)]
pub enum Material {
    Flat(Radiance),
    Textured(usize),
}

/// One surface with its material resolved.
#[derive(Clone, Copy, Debug)]
pub struct CompiledSurface {
    pub shape: Shape,
    pub material: Material,
}

/// The immutable render configuration, shared read-only by all workers.
pub struct RenderConfig {
    pub width: u64,
    pub height: u64,
    pub samples_per_pixel: u64,
    pub background: Color,
    pub surfaces: Vec<CompiledSurface>,
    pub assets: Vec<LoadedAsset>,
}

/// The output height for a requested width: scaled by the camera's aspect
/// ratio, and at least one row.
pub open spec fn derived_height(width: int, cam: Camera) -> int {
    let h = width * (cam.aspect_h as int) / (cam.aspect_w as int);
    if h >= 1 {
        h
    } else {
        1
    }
}

impl RenderConfig {
    /// Every texture index points at a usable bundled asset.
    pub open spec fn wf(self) -> bool {
        &&& self.width <= u32::MAX
        &&& self.height >= 1
        &&& forall|j: int|
            0 <= j < self.surfaces@.len() ==> match (#[trigger] self.surfaces@[j]).material {
                Material::Flat(_) => true,
                Material::Textured(a) => a < self.assets@.len(),
            }
        &&& forall|j: int| 0 <= j < self.assets@.len() ==> (#[trigger] self.assets@[j]).image.wf()
    }
}

/// The compiled material stands for the scene surface's material: the same
/// flat radiance, or the first bundled asset answering to the referenced
/// texture name.
pub open spec fn material_matches(
    m: Material,
    s: crate::scene::SurfaceV,
    assets: Seq<LoadedAsset>,
) -> bool {
    match s.texture {
        Option::None => m == Material::Flat(s.radiance),
        Option::Some(nm) => match m {
            Material::Textured(a) => 0 <= a < assets.len() && assets[a as int].name@ == nm
                && forall|k: int| 0 <= k < a ==> (#[trigger] assets[k]).name@ != nm,
            Material::Flat(_) => false,
        },
    }
}

/// `cfg` is the configuration materialized from this scene, bundle, width
/// and sample count: the one value `compile` builds.
pub open spec fn compiled_for(
    cfg: RenderConfig,
    sv: crate::scene::SceneV,
    assets: Seq<LoadedAsset>,
    width: u64,
    samples_per_pixel: u64,
) -> bool {
    &&& cfg.wf()
    &&& cfg.width == width
    &&& cfg.height == derived_height(width as int, sv.camera)
    &&& cfg.samples_per_pixel == samples_per_pixel
    &&& cfg.background == sv.background
    &&& cfg.assets@ == assets
    &&& cfg.surfaces@.len() == sv.surfaces.len()
    &&& forall|i: int|
        0 <= i < sv.surfaces.len() ==> (#[trigger] cfg.surfaces@[i]).shape == sv.surfaces[i].shape
            && material_matches(cfg.surfaces@[i].material, sv.surfaces[i], assets)
}

/// Builds the render configuration: infallible once the scene was validated
/// against the bundle. Consumes the bundle; the scene's geometry and
/// materials are carried over surface by surface, in order.
pub fn compile(
    scene: &PersistedScene,
    bundle: AssetBundle,
    width: u64,
    samples_per_pixel: u64,
) -> (cfg: RenderConfig)
    requires
        crate::scene::wf_scene(scene@),
        bundle.wf(),
        refs_resolve(scene@, bundle.assets@),
        width <= u32::MAX,
    ensures
        cfg.wf(),
        compiled_for(cfg, scene@, bundle.assets@, width, samples_per_pixel),
{
    let aw = scene.camera.aspect_w;
    let ah = scene.camera.aspect_h;
    proof {
        assert((width as int) * (ah as int) <= 0xffff_ffff * 0xffff_ffff) by (nonlinear_arith)
            requires
                0 <= width as int <= 0xffff_ffff,
                0 <= ah as int <= 0xffff_ffff,
        ;
    }
    let h0 = width * (ah as u64) / (aw as u64);
    let height = if h0 >= 1 {
        h0
    } else {
        1
    };
    let mut surfaces: Vec<CompiledSurface> = Vec::new();
    let mut i: usize = 0;
    while i < scene.surfaces.len()
        invariant
            i <= scene.surfaces@.len(),
            scene@.surfaces.len() == scene.surfaces@.len(),
            bundle.wf(),
            refs_resolve(scene@, bundle.assets@),
            surfaces@.len() == i,
            forall|j: int|
                0 <= j < i ==> (#[trigger] surfaces@[j]).shape == scene@.surfaces[j].shape
                    && material_matches(surfaces@[j].material, scene@.surfaces[j], bundle.assets@),
        decreases scene.surfaces@.len() - i,
    {
        let s = &scene.surfaces[i];
        proof {
            assert(scene@.surfaces[i as int] == scene.surfaces@[i as int]@);
        }
        let material = match &s.texture {
            Option::None => Material::Flat(s.radiance),
            Option::Some(nm) => {
                match bundle.lookup(nm) {
                    Option::Some(a) => Material::Textured(a),
                    Option::None => {
                        proof {
                            assert(crate::assets::missing_at(scene@, bundle.assets@, i as int));
                            assert(false);
                        }
                        Material::Flat(s.radiance)
                    },
                }
            },
        };
        surfaces.push(CompiledSurface { shape: s.shape, material });
        i = i + 1;
    }
    RenderConfig {
        width,
        height,
        samples_per_pixel,
        background: scene.background,
        surfaces,
        assets: bundle.assets,
    }
}

} // verus!
