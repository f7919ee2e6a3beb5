//! The asset bundle: decoded images keyed by the asset name the scene uses.
//!
//! Reading and decoding image files happens outside the library; the bundle
//! takes the decoded pixels as plain values, checks their shape, and answers
//! the validation question: does every texture reference of a scene resolve?

use vstd::prelude::*;

use crate::scene::{Color, PersistedScene, SceneV};

verus! {

/// A decoded image: row-major pixels, `width * height` of them.
pub struct Image {
    pub width: u32,
    pub height: u32,
    pub pixels: Vec<Color>,
}

impl Image {
    /// A usable image: both dimensions positive, pixel count matching.
    pub open spec fn wf(self) -> bool {
        &&& self.width >= 1
        &&& self.height >= 1
        &&& self.pixels@.len() == (self.width as int) * (self.height as int)
    }
}

/// One decoded asset, under the name scenes refer to it by.
pub struct LoadedAsset {
    pub name: Vec<u8>,
    pub image: Image,
}

/// The immutable mapping from asset name to decoded image, built once per
/// render and read-only afterwards.
pub struct AssetBundle {
    pub assets: Vec<LoadedAsset>,
}

/// A staged asset whose decoded form is unusable; carries the asset's name.
#[derive(Debug)]
pub struct AssetError {
    pub name: Vec<u8>,
}

/// A scene texture reference that no bundled asset answers; carries the first
/// unresolved name.
#[derive(Debug)]
pub struct ValidationError {
    pub missing: Vec<u8>,
}

/// Some bundled asset answers to `name`.
pub open spec fn asset_present(l: Seq<LoadedAsset>, name: Seq<u8>) -> bool {
    exists|j: int| 0 <= j < l.len() && (#[trigger] l[j]).name@ == name
}

impl AssetBundle {
    /// Every bundled image is usable.
    pub open spec fn wf(self) -> bool {
        forall|j: int| 0 <= j < self.assets@.len() ==> (#[trigger] self.assets@[j]).image.wf()
    }

    /// Builds the bundle, refusing the first asset whose decoded image is
    /// unusable.
    pub fn new(list: Vec<LoadedAsset>) -> (r: Result<AssetBundle, AssetError>)
        ensures
            match r {
                Result::Ok(b) => b.assets@ == list@ && b.wf(),
                Result::Err(e) => exists|j: int|
                    0 <= j < list@.len() && !(#[trigger] list@[j]).image.wf() && e.name@
                        == list@[j].name@ && (forall|k: int|
                        0 <= k < j ==> (#[trigger] list@[k]).image.wf()),
            },
    {
        let mut i: usize = 0;
        while i < list.len()
            invariant
                i <= list@.len(),
                forall|j: int| 0 <= j < i ==> (#[trigger] list@[j]).image.wf(),
            decreases list@.len() - i,
        {
            let a = &list[i];
            proof {
                assert((a.image.width as int) * (a.image.height as int) <= 0xffff_ffff
                    * 0xffff_ffff) by (nonlinear_arith)
                    requires
                        0 <= a.image.width as int <= 0xffff_ffff,
                        0 <= a.image.height as int <= 0xffff_ffff,
                ;
            }
            let ok = a.image.width >= 1 && a.image.height >= 1 && (a.image.pixels.len() as u64)
                == (a.image.width as u64) * (a.image.height as u64);
            if !ok {
                proof {
                    assert(!list@[i as int].image.wf());
                }
                return Result::Err(AssetError { name: clone_bytes(&a.name) });
            }
            i = i + 1;
        }
        Result::Ok(AssetBundle { assets: list })
    }

    /// Finds the first asset answering to `name`.
    pub fn lookup(&self, name: &Vec<u8>) -> (r: Option<usize>)
        ensures
            match r {
                Option::Some(j) => 0 <= j < self.assets@.len() && self.assets@[j as int].name@
                    == name@ && forall|k: int|
                    0 <= k < j ==> (#[trigger] self.assets@[k]).name@ != name@,
                Option::None => !asset_present(self.assets@, name@),
            },
    {
        let mut i: usize = 0;
        while i < self.assets.len()
            invariant
                i <= self.assets@.len(),
                forall|j: int| 0 <= j < i ==> (#[trigger] self.assets@[j]).name@ != name@,
            decreases self.assets@.len() - i,
        {
            if crate::scene::bytes_eq(&self.assets[i].name, name) {
                return Option::Some(i);
            }
            i = i + 1;
        }
        Option::None
    }
}

/// A copy of a byte vector.
pub fn clone_bytes(v: &Vec<u8>) -> (r: Vec<u8>)
    ensures
        r@ == v@,
{
    let mut out: Vec<u8> = Vec::new();
    let mut i: usize = 0;
    while i < v.len()
        invariant
            i <= v@.len(),
            out@ == v@.subrange(0, i as int),
        decreases v@.len() - i,
    {
        out.push(v[i]);
        proof {
            assert(out@ =~= v@.subrange(0, i as int + 1));
        }
        i = i + 1;
    }
    proof {
        assert(v@.subrange(0, v@.len() as int) =~= v@);
    }
    out
}

/// Surface `i` of the scene names a texture the bundle does not answer.
pub open spec fn missing_at(sv: SceneV, l: Seq<LoadedAsset>, i: int) -> bool {
    match sv.surfaces[i].texture {
        Option::None => false,
        Option::Some(nm) => !asset_present(l, nm),
    }
}

/// Every texture reference of the scene resolves in the bundle.
pub open spec fn refs_resolve(sv: SceneV, l: Seq<LoadedAsset>) -> bool {
    forall|i: int| 0 <= i < sv.surfaces.len() ==> !missing_at(sv, l, i)
}

/// The validation stage: succeeds exactly when every texture reference of
/// the scene resolves in the bundle, and otherwise names the first
/// unresolved reference.
pub fn validate(scene: &PersistedScene, bundle: &AssetBundle) -> (r: Result<(), ValidationError>)
    ensures
        match r {
            Result::Ok(_) => refs_resolve(scene@, bundle.assets@),
            Result::Err(e) => exists|i: int|
                0 <= i < scene@.surfaces.len() && #[trigger] missing_at(scene@, bundle.assets@, i)
                    && e.missing@ == scene@.surfaces[i].texture->Some_0 && forall|j: int|
                    0 <= j < i ==> !missing_at(scene@, bundle.assets@, j),
        },
{
    let mut i: usize = 0;
    while i < scene.surfaces.len()
        invariant
            i <= scene.surfaces@.len(),
            scene@.surfaces.len() == scene.surfaces@.len(),
            forall|j: int| 0 <= j < i ==> !missing_at(scene@, bundle.assets@, j),
        decreases scene.surfaces@.len() - i,
    {
        match &scene.surfaces[i].texture {
            Option::None => {},
            Option::Some(nm) => {
                match bundle.lookup(nm) {
                    Option::Some(_) => {
                        proof {
                            assert(scene@.surfaces[i as int] == scene.surfaces@[i as int]@);
                            assert(!missing_at(scene@, bundle.assets@, i as int));
                        }
                    },
                    Option::None => {
                        proof {
                            assert(scene@.surfaces[i as int] == scene.surfaces@[i as int]@);
                            assert(missing_at(scene@, bundle.assets@, i as int));
                        }
                        return Result::Err(ValidationError { missing: clone_bytes(nm) });
                    },
                }
            },
        }
        proof {
            assert(scene@.surfaces[i as int] == scene.surfaces@[i as int]@);
            assert(!missing_at(scene@, bundle.assets@, i as int));
        }
        i = i + 1;
    }
    Result::Ok(())
}

} // verus!
