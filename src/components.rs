use vstd::prelude::*;
use crate::arena::{Arena, Key};
use crate::inherit::RSGInherited;
use crate::links::{RSGComponentLinks, RSGNodeKey};
use crate::scene::{observed, RSGNode, RSGScene};
use crate::observer::RSGEvent;
use crate::viewport::{RSGViewportComponent, RSGViewportRect};

verus! {

/// One store per component kind, each an arena with keys of its own. `T` is the
/// transform value, `O` the opacity value, `MA` the material, `ME` the mesh and `CA`
/// the camera record.
pub struct RSGComponentContainer<T, O, MA, ME, CA> {
    pub transforms: Arena<RSGInherited<T>>,
    pub opacities: Arena<RSGInherited<O>>,
    pub materials: Arena<MA>,
    pub meshes: Arena<ME>,
    pub cameras: Arena<CA>,
    pub viewports: Arena<RSGViewportComponent>,
}

/// `k`, when present, addresses a value of `m`.
pub open spec fn held<V>(m: Map<Key, V>, k: Option<Key>) -> bool {
    k matches Some(key) ==> m.contains_key(key)
}

/// `m` without the value under `k`, when present.
pub open spec fn without<V>(m: Map<Key, V>, k: Option<Key>) -> Map<Key, V> {
    match k {
        Some(key) => m.remove(key),
        None => m,
    }
}

impl<T: Copy, O: Copy, MA, ME, CA> RSGComponentContainer<T, O, MA, ME, CA> {
    /// Every store is well formed.
    pub open spec fn wf(&self) -> bool {
        &&& self.transforms.wf()
        &&& self.opacities.wf()
        &&& self.materials.wf()
        &&& self.meshes.wf()
        &&& self.cameras.wf()
        &&& self.viewports.wf()
    }

    /// Every key of `links` addresses a component of its store.
    pub open spec fn holds_links(&self, links: RSGComponentLinks) -> bool {
        &&& held(self.transforms@, links.transform_key)
        &&& held(self.opacities@, links.opacity_key)
        &&& held(self.materials@, links.material_key)
        &&& held(self.meshes@, links.mesh_key)
        &&& held(self.cameras@, links.camera_key)
        &&& held(self.viewports@, links.viewport_key)
    }

    /// Empty stores.
    pub fn new() -> (r: Self)
        ensures
            r.wf(),
            r.transforms@.len() == 0,
            r.opacities@.len() == 0,
            r.materials@.len() == 0,
            r.meshes@.len() == 0,
            r.cameras@.len() == 0,
            r.viewports@.len() == 0,
    {
        RSGComponentContainer {
            transforms: Arena::new(),
            opacities: Arena::new(),
            materials: Arena::new(),
            meshes: Arena::new(),
            cameras: Arena::new(),
            viewports: Arena::new(),
        }
    }

    /// Releases every component that `links` addresses, as a removed node hands them
    /// back.
    pub fn remove(&mut self, links: RSGComponentLinks)
        requires
            old(self).wf(),
            old(self).holds_links(links),
        ensures
            final(self).wf(),
            final(self).transforms@ == without(old(self).transforms@, links.transform_key),
            final(self).opacities@ == without(old(self).opacities@, links.opacity_key),
            final(self).materials@ == without(old(self).materials@, links.material_key),
            final(self).meshes@ == without(old(self).meshes@, links.mesh_key),
            final(self).cameras@ == without(old(self).cameras@, links.camera_key),
            final(self).viewports@ == without(old(self).viewports@, links.viewport_key),
    {
        if let Some(key) = links.transform_key {
            self.transforms.remove(key);
        }
        if let Some(key) = links.opacity_key {
            self.opacities.remove(key);
        }
        if let Some(key) = links.material_key {
            self.materials.remove(key);
        }
        if let Some(key) = links.mesh_key {
            self.meshes.remove(key);
        }
        if let Some(key) = links.camera_key {
            self.cameras.remove(key);
        }
        if let Some(key) = links.viewport_key {
            self.viewports.remove(key);
        }
    }

    /// Makes the root of the empty `scene` a node owning a transform `identity` and
    /// an opacity `opaque`.
    pub fn add_default_root(
        &mut self,
        scene: &mut RSGScene,
        identity: T,
        opaque: O,
    ) -> (k: RSGNodeKey)
        requires
            old(self).wf(),
            old(scene).wf(),
            old(scene).root_key() is None,
            old(self).transforms@.len() < usize::MAX,
            old(self).opacities@.len() < usize::MAX,
        ensures
            final(self).wf(),
            final(scene).wf(),
            final(scene).root_key() == Some(k),
            final(scene).count() == 1,
            final(self).holds_links(final(scene).links_of(k)),
            (final(scene).links_of(k).transform_key matches Some(t) && final(self).transforms@[t]
                == (RSGInherited { local: identity, world: identity })),
            (final(scene).links_of(k).opacity_key matches Some(o) && final(self).opacities@[o]
                == (RSGInherited { local: opaque, world: opaque })),
            final(scene).links_of(k).material_key is None,
            final(scene).links_of(k).mesh_key is None,
            final(scene).links_of(k).camera_key is None,
            final(scene).links_of(k).viewport_key is None,
            final(scene).observer_state() == observed(
                old(scene).observer_state(),
                RSGEvent::SubtreeAddedOrReattached(k),
            ),
    {
        let b = RSGComponentBuilder::new();
        let b = b.transform(self, identity);
        let b = b.opacity(self, opaque);
        scene.set_root(RSGNode::with_component_links(b.links()))
    }
}

/// Gathers the components of a node about to be inserted, adding each to its store.
#[derive(Clone, Copy)]
pub struct RSGComponentBuilder {
    links: RSGComponentLinks,
}

impl RSGComponentBuilder {
    /// The links gathered so far.
    pub closed spec fn spec_links(&self) -> RSGComponentLinks {
        self.links
    }

    /// A builder that has gathered nothing.
    pub fn new() -> (r: Self)
        ensures
            r.spec_links() == (RSGComponentLinks {
                transform_key: None,
                opacity_key: None,
                material_key: None,
                mesh_key: None,
                camera_key: None,
                viewport_key: None,
            }),
    {
        RSGComponentBuilder { links: RSGComponentLinks::empty() }
    }

    /// The links gathered.
    pub fn links(&self) -> (r: RSGComponentLinks)
        ensures
            r == self.spec_links(),
    {
        self.links
    }

    /// Adds a transform whose local and world values are `local`.
    pub fn transform<T: Copy, O: Copy, MA, ME, CA>(
        self,
        c: &mut RSGComponentContainer<T, O, MA, ME, CA>,
        local: T,
    ) -> (r: Self)
        requires
            old(c).wf(),
            old(c).transforms@.len() < usize::MAX,
        ensures
            final(c).wf(),
            r.spec_links() == (RSGComponentLinks { transform_key: r.spec_links().transform_key, ..self.spec_links() }),
            (r.spec_links().transform_key matches Some(k) && !old(c).transforms@.contains_key(k)
                && final(c).transforms@ == old(c).transforms@.insert(
                k,
                RSGInherited { local, world: local },
            )),
            final(c).opacities == old(c).opacities,
            final(c).materials == old(c).materials,
            final(c).meshes == old(c).meshes,
            final(c).cameras == old(c).cameras,
            final(c).viewports == old(c).viewports,
    {
        let k = c.transforms.insert(RSGInherited::new(local));
        RSGComponentBuilder { links: RSGComponentLinks { transform_key: Some(k), ..self.links } }
    }

    /// Adds an opacity whose own and inherited values are `opacity`.
    pub fn opacity<T: Copy, O: Copy, MA, ME, CA>(
        self,
        c: &mut RSGComponentContainer<T, O, MA, ME, CA>,
        opacity: O,
    ) -> (r: Self)
        requires
            old(c).wf(),
            old(c).opacities@.len() < usize::MAX,
        ensures
            final(c).wf(),
            r.spec_links() == (RSGComponentLinks { opacity_key: r.spec_links().opacity_key, ..self.spec_links() }),
            (r.spec_links().opacity_key matches Some(k) && !old(c).opacities@.contains_key(k)
                && final(c).opacities@ == old(c).opacities@.insert(
                k,
                (RSGInherited { local: opacity, world: opacity }),
            )),
            final(c).transforms == old(c).transforms,
            final(c).materials == old(c).materials,
            final(c).meshes == old(c).meshes,
            final(c).cameras == old(c).cameras,
            final(c).viewports == old(c).viewports,
    {
        let k = c.opacities.insert(RSGInherited::new(opacity));
        RSGComponentBuilder { links: RSGComponentLinks { opacity_key: Some(k), ..self.links } }
    }

    /// Adds `material`.
    pub fn material<T: Copy, O: Copy, MA, ME, CA>(
        self,
        c: &mut RSGComponentContainer<T, O, MA, ME, CA>,
        material: MA,
    ) -> (r: Self)
        requires
            old(c).wf(),
            old(c).materials@.len() < usize::MAX,
        ensures
            final(c).wf(),
            r.spec_links() == (RSGComponentLinks { material_key: r.spec_links().material_key, ..self.spec_links() }),
            (r.spec_links().material_key matches Some(k) && !old(c).materials@.contains_key(k)
                && final(c).materials@ == old(c).materials@.insert(k, material)),
            final(c).transforms == old(c).transforms,
            final(c).opacities == old(c).opacities,
            final(c).meshes == old(c).meshes,
            final(c).cameras == old(c).cameras,
            final(c).viewports == old(c).viewports,
    {
        let k = c.materials.insert(material);
        RSGComponentBuilder { links: RSGComponentLinks { material_key: Some(k), ..self.links } }
    }

    /// Adds `mesh`.
    pub fn mesh<T: Copy, O: Copy, MA, ME, CA>(
        self,
        c: &mut RSGComponentContainer<T, O, MA, ME, CA>,
        mesh: ME,
    ) -> (r: Self)
        requires
            old(c).wf(),
            old(c).meshes@.len() < usize::MAX,
        ensures
            final(c).wf(),
            r.spec_links() == (RSGComponentLinks { mesh_key: r.spec_links().mesh_key, ..self.spec_links() }),
            (r.spec_links().mesh_key matches Some(k) && !old(c).meshes@.contains_key(k)
                && final(c).meshes@ == old(c).meshes@.insert(k, mesh)),
            final(c).transforms == old(c).transforms,
            final(c).opacities == old(c).opacities,
            final(c).materials == old(c).materials,
            final(c).cameras == old(c).cameras,
            final(c).viewports == old(c).viewports,
    {
        let k = c.meshes.insert(mesh);
        RSGComponentBuilder { links: RSGComponentLinks { mesh_key: Some(k), ..self.links } }
    }

    /// Adds `camera`.
    pub fn camera<T: Copy, O: Copy, MA, ME, CA>(
        self,
        c: &mut RSGComponentContainer<T, O, MA, ME, CA>,
        camera: CA,
    ) -> (r: Self)
        requires
            old(c).wf(),
            old(c).cameras@.len() < usize::MAX,
        ensures
            final(c).wf(),
            r.spec_links() == (RSGComponentLinks { camera_key: r.spec_links().camera_key, ..self.spec_links() }),
            (r.spec_links().camera_key matches Some(k) && !old(c).cameras@.contains_key(k)
                && final(c).cameras@ == old(c).cameras@.insert(k, camera)),
            final(c).transforms == old(c).transforms,
            final(c).opacities == old(c).opacities,
            final(c).materials == old(c).materials,
            final(c).meshes == old(c).meshes,
            final(c).viewports == old(c).viewports,
    {
        let k = c.cameras.insert(camera);
        RSGComponentBuilder { links: RSGComponentLinks { camera_key: Some(k), ..self.links } }
    }

    /// Adds a viewport over `rect` seen through the camera of `camera_node_key`.
    pub fn viewport<T: Copy, O: Copy, MA, ME, CA>(
        self,
        c: &mut RSGComponentContainer<T, O, MA, ME, CA>,
        rect: Option<RSGViewportRect>,
        camera_node_key: Option<RSGNodeKey>,
    ) -> (r: Self)
        requires
            old(c).wf(),
            old(c).viewports@.len() < usize::MAX,
        ensures
            final(c).wf(),
            r.spec_links() == (RSGComponentLinks { viewport_key: r.spec_links().viewport_key, ..self.spec_links() }),
            (r.spec_links().viewport_key matches Some(k) && !old(c).viewports@.contains_key(k)
                && final(c).viewports@ == old(c).viewports@.insert(
                k,
                (RSGViewportComponent { rect, camera_node_key }),
            )),
            final(c).transforms == old(c).transforms,
            final(c).opacities == old(c).opacities,
            final(c).materials == old(c).materials,
            final(c).meshes == old(c).meshes,
            final(c).cameras == old(c).cameras,
    {
        let k = c.viewports.insert(RSGViewportComponent::new(rect, camera_node_key));
        RSGComponentBuilder { links: RSGComponentLinks { viewport_key: Some(k), ..self.links } }
    }
}

} // verus!
