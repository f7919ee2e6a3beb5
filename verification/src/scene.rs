//! The persisted scene description: camera parameters, background, and a
//! front-to-back list of flat-radiance surfaces, each optionally textured by a
//! named asset. Radiance channels are stored as raw `u32` values; a channel
//! above 255 is a non-displayable radiance and makes samples of that surface
//! fail (they are recovered by the engine, never propagated).

use vstd::prelude::*;

verus! {

/// The scene store refuses documents announcing more surfaces than this, so
/// that a surface count is always a usable collection size.
pub const SURFACE_LIMIT: u64 = 1000000;

/// Camera parameters: the output aspect ratio, width to height.
#[derive(Clone, Copy, Debug, PartialEq, Eq, Structural)]
pub struct Camera {
    pub aspect_w: u32,
    pub aspect_h: u32,
}

/// A displayable 8-bit color.
#[derive(Clone, Copy, Debug, PartialEq, Eq, Structural)]
pub struct Color {
    pub r: u8,
    pub g: u8,
    pub b: u8,
}

/// Raw per-channel radiance, possibly outside the displayable range.
#[derive(Clone, Copy, Debug, PartialEq, Eq, Structural)]
pub struct Radiance {
    pub r: u32,
    pub g: u32,
    pub b: u32,
}

/// Surface geometry, in a normalized frame whose axes run 0..=1000.
#[derive(Clone, Copy, Debug, PartialEq, Eq, Structural)]
pub enum Shape {
    /// Fills the whole frame.
    Plane,
    /// An axis-aligned region: covers points with u0 <= u < u1, v0 <= v < v1.
    Rect { u0: u32, v0: u32, u1: u32, v1: u32 },
}

/// One scene surface: geometry, emitted radiance, and an optional texture
/// reference naming an asset.
#[derive(Clone, Debug)]
pub struct Surface {
    pub shape: Shape,
    pub radiance: Radiance,
    pub texture: Option<Vec<u8>>,
}

/// The mathematical value of a surface.
#[verifier::ext_equal]
pub struct SurfaceV {
    pub shape: Shape,
    pub radiance: Radiance,
    pub texture: Option<Seq<u8>>,
}

impl View for Surface {
    type V = SurfaceV;

    open spec fn view(&self) -> SurfaceV {
        SurfaceV {
            shape: self.shape,
            radiance: self.radiance,
            texture: match self.texture {
                Option::None => Option::None,
                Option::Some(t) => Option::Some(t@),
            },
        }
    }
}

/// The on-disk scene description.
#[derive(Clone, Debug)]
pub struct PersistedScene {
    pub camera: Camera,
    pub background: Color,
    pub surfaces: Vec<Surface>,
}

/// The mathematical value of a scene.
#[verifier::ext_equal]
pub struct SceneV {
    pub camera: Camera,
    pub background: Color,
    pub surfaces: Seq<SurfaceV>,
}

impl View for PersistedScene {
    type V = SceneV;

    open spec fn view(&self) -> SceneV {
        SceneV {
            camera: self.camera,
            background: self.background,
            surfaces: self.surfaces@.map_values(|s: Surface| s@),
        }
    }
}

/// Bytes allowed in an asset name: printable ASCII with no blanks, so a name
/// is one token of the textual scene form.
pub open spec fn is_name_byte(b: u8) -> bool {
    33 <= b <= 126
}

/// A well-formed asset name: non-empty, all name bytes.
pub open spec fn wf_name(t: Seq<u8>) -> bool {
    &&& t.len() >= 1
    &&& forall|i: int| 0 <= i < t.len() ==> is_name_byte(#[trigger] t[i])
}

pub open spec fn wf_surface(s: SurfaceV) -> bool {
    match s.texture {
        Option::None => true,
        Option::Some(t) => wf_name(t),
    }
}

/// A well-formed scene: a usable aspect ratio and well-formed texture names.
pub open spec fn wf_scene(sv: SceneV) -> bool {
    &&& sv.camera.aspect_w >= 1
    &&& sv.camera.aspect_h >= 1
    &&& sv.surfaces.len() <= SURFACE_LIMIT
    &&& forall|i: int| 0 <= i < sv.surfaces.len() ==> wf_surface(#[trigger] sv.surfaces[i])
}

/// Byte-for-byte equality of two byte vectors.
pub fn bytes_eq(a: &Vec<u8>, b: &Vec<u8>) -> (r: bool)
    ensures
        r == (a@ == b@),
{
    if a.len() != b.len() {
        return false;
    }
    let mut i: usize = 0;
    while i < a.len()
        invariant
            i <= a@.len() == b@.len(),
            forall|j: int| 0 <= j < i ==> a@[j] == b@[j],
        decreases a@.len() - i,
    {
        if a[i] != b[i] {
            return false;
        }
        i = i + 1;
    }
    proof {
        assert(a@ =~= b@);
    }
    true
}

impl Surface {
    /// Structural equality of two surfaces, at the level of their values.
    pub fn same_surface(&self, other: &Surface) -> (r: bool)
        ensures
            r == (self@ == other@),
    {
        let shapes_eq = match (self.shape, other.shape) {
            (Shape::Plane, Shape::Plane) => true,
            (
                Shape::Rect { u0, v0, u1, v1 },
                Shape::Rect { u0: a0, v0: b0, u1: a1, v1: b1 },
            ) => u0 == a0 && v0 == b0 && u1 == a1 && v1 == b1,
            _ => false,
        };
        let rad_eq = self.radiance.r == other.radiance.r && self.radiance.g == other.radiance.g
            && self.radiance.b == other.radiance.b;
        let tex_eq = match (&self.texture, &other.texture) {
            (Option::None, Option::None) => true,
            (Option::Some(a), Option::Some(b)) => bytes_eq(a, b),
            _ => false,
        };
        shapes_eq && rad_eq && tex_eq
    }
}

impl PersistedScene {
    /// Structural equality of two scenes, at the level of their values: the
    /// scene store's notion of equality.
    pub fn same_scene(&self, other: &PersistedScene) -> (r: bool)
        ensures
            r == (self@ == other@),
    {
        if !(self.camera.aspect_w == other.camera.aspect_w && self.camera.aspect_h
            == other.camera.aspect_h) {
            proof {
                assert(self@.camera != other@.camera);
            }
            return false;
        }
        if !(self.background.r == other.background.r && self.background.g == other.background.g
            && self.background.b == other.background.b) {
            proof {
                assert(self@.background != other@.background);
            }
            return false;
        }
        if self.surfaces.len() != other.surfaces.len() {
            proof {
                assert(self@.surfaces.len() != other@.surfaces.len());
            }
            return false;
        }
        let mut i: usize = 0;
        while i < self.surfaces.len()
            invariant
                i <= self.surfaces@.len() == other.surfaces@.len(),
                forall|j: int| 0 <= j < i ==> self.surfaces@[j]@ == #[trigger] other.surfaces@[j]@,
            decreases self.surfaces@.len() - i,
        {
            if !self.surfaces[i].same_surface(&other.surfaces[i]) {
                proof {
                    assert(self@.surfaces[i as int] == self.surfaces@[i as int]@);
                    assert(other@.surfaces[i as int] == other.surfaces@[i as int]@);
                }
                return false;
            }
            i = i + 1;
        }
        proof {
            assert(self@.surfaces =~= other@.surfaces);
            assert(self@ =~~= other@);
        }
        true
    }
}

} // verus!
