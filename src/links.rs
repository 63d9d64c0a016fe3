use vstd::prelude::*;
use crate::arena::Key;

verus! {

/// Key of a node in the tree.
pub type RSGNodeKey = Key;

/// Key of a transform component.
pub type RSGTransformKey = Key;

/// Key of an opacity component.
pub type RSGOpacityKey = Key;

/// Key of a material component.
pub type RSGMaterialKey = Key;

/// Key of a mesh component.
pub type RSGMeshKey = Key;

/// Key of a camera component.
pub type RSGCameraKey = Key;

/// Key of a viewport component.
pub type RSGViewportKey = Key;

/// The kinds of component a node can own.
#[derive(Clone, Copy, PartialEq, Eq, Structural, Debug)]
pub enum RSGComponentKind {
    Transform,
    Opacity,
    Material,
    Mesh,
    Camera,
    Viewport,
}

/// The components a node owns: at most one key per kind, each into that kind's own
/// store.
#[derive(Clone, Copy, PartialEq, Eq, Structural, Debug)]
pub struct RSGComponentLinks {
    pub transform_key: Option<RSGTransformKey>,
    pub opacity_key: Option<RSGOpacityKey>,
    pub material_key: Option<RSGMaterialKey>,
    pub mesh_key: Option<RSGMeshKey>,
    pub camera_key: Option<RSGCameraKey>,
    pub viewport_key: Option<RSGViewportKey>,
}

impl RSGComponentLinks {
    /// The key held for `kind`, if any.
    pub open spec fn key_of(self, kind: RSGComponentKind) -> Option<Key> {
        match kind {
            RSGComponentKind::Transform => self.transform_key,
            RSGComponentKind::Opacity => self.opacity_key,
            RSGComponentKind::Material => self.material_key,
            RSGComponentKind::Mesh => self.mesh_key,
            RSGComponentKind::Camera => self.camera_key,
            RSGComponentKind::Viewport => self.viewport_key,
        }
    }

    /// Links to no component at all.
    pub fn empty() -> (r: Self)
        ensures
            r == (RSGComponentLinks {
                transform_key: None,
                opacity_key: None,
                material_key: None,
                mesh_key: None,
                camera_key: None,
                viewport_key: None,
            }),
            forall|kind: RSGComponentKind| (#[trigger] r.key_of(kind)) is None,
    {
        RSGComponentLinks {
            transform_key: None,
            opacity_key: None,
            material_key: None,
            mesh_key: None,
            camera_key: None,
            viewport_key: None,
        }
    }

    /// The key held for `kind`, if any.
    pub fn key(&self, kind: RSGComponentKind) -> (r: Option<Key>)
        ensures
            r == self.key_of(kind),
    {
        match kind {
            RSGComponentKind::Transform => self.transform_key,
            RSGComponentKind::Opacity => self.opacity_key,
            RSGComponentKind::Material => self.material_key,
            RSGComponentKind::Mesh => self.mesh_key,
            RSGComponentKind::Camera => self.camera_key,
            RSGComponentKind::Viewport => self.viewport_key,
        }
    }
}

} // verus!
