use vstd::prelude::*;
use crate::arena::Key;

verus! {

/// Bit of [`RSGDirtyFlags`] for world transforms.
pub const DIRTY_TRANSFORM: u32 = 0x01;

/// Bit of [`RSGDirtyFlags`] for inherited opacity.
pub const DIRTY_OPACITY: u32 = 0x02;

/// Bit of [`RSGDirtyFlags`] for materials.
pub const DIRTY_MATERIAL: u32 = 0x04;

/// Bit of [`RSGDirtyFlags`] for material property values.
pub const DIRTY_MATERIAL_VALUES: u32 = 0x08;

/// Bit of [`RSGDirtyFlags`] for meshes.
pub const DIRTY_MESH: u32 = 0x10;

/// A set of dirty categories, one bit each.
#[derive(Clone, Copy, PartialEq, Eq, Structural, Debug)]
pub struct RSGDirtyFlags {
    pub bits: u32,
}

impl RSGDirtyFlags {
    /// Whether every bit of `bit` is set.
    pub open spec fn has(self, bit: u32) -> bool {
        self.bits & bit == bit
    }

    /// The flags with exactly the bits of `bits`.
    pub fn from_bits(bits: u32) -> (r: Self)
        ensures
            r.bits == bits,
    {
        RSGDirtyFlags { bits }
    }

    /// Only the world-transform category.
    pub fn transform() -> (r: Self)
        ensures
            r.bits == DIRTY_TRANSFORM,
    {
        RSGDirtyFlags { bits: DIRTY_TRANSFORM }
    }

    /// Only the opacity category.
    pub fn opacity() -> (r: Self)
        ensures
            r.bits == DIRTY_OPACITY,
    {
        RSGDirtyFlags { bits: DIRTY_OPACITY }
    }

    /// Only the material category.
    pub fn material() -> (r: Self)
        ensures
            r.bits == DIRTY_MATERIAL,
    {
        RSGDirtyFlags { bits: DIRTY_MATERIAL }
    }

    /// Only the material-values category.
    pub fn material_values() -> (r: Self)
        ensures
            r.bits == DIRTY_MATERIAL_VALUES,
    {
        RSGDirtyFlags { bits: DIRTY_MATERIAL_VALUES }
    }

    /// Only the mesh category.
    pub fn mesh() -> (r: Self)
        ensures
            r.bits == DIRTY_MESH,
    {
        RSGDirtyFlags { bits: DIRTY_MESH }
    }

    /// The union of two sets of categories.
    pub fn union(self, other: Self) -> (r: Self)
        ensures
            r.bits == self.bits | other.bits,
    {
        RSGDirtyFlags { bits: self.bits | other.bits }
    }

    /// Whether every category of `other` is in `self`.
    pub fn contains(&self, other: Self) -> (r: bool)
        ensures
            r == self.has(other.bits),
    {
        self.bits & other.bits == other.bits
    }
}

/// A change to the tree or to a component, as the tree reports it to its observer.
#[derive(Clone, Copy, PartialEq, Eq, Structural, Debug)]
pub enum RSGEvent {
    /// A subtree was added, or moved under a new parent; its root is given.
    SubtreeAddedOrReattached(Key),
    /// A node is about to be removed.
    SubtreeAboutToBeRemoved(Key),
    /// Derived state of the given categories is stale in the subtree of the node.
    Dirty(Key, RSGDirtyFlags),
}

/// What a [`RSGSceneObserver`] has accumulated.
pub ghost struct ObserverState {
    pub changed: bool,
    pub hierarchy_changed: bool,
    pub world: Seq<Key>,
    pub opacity: Seq<Key>,
    pub material: Seq<Key>,
    pub material_values: Seq<Key>,
    pub mesh: Seq<Key>,
}

impl ObserverState {
    /// Appends `k` to a root list when `cond` holds.
    pub open spec fn push_if(s: Seq<Key>, cond: bool, k: Key) -> Seq<Key> {
        if cond {
            s.push(k)
        } else {
            s
        }
    }

    /// The state after one event.
    pub open spec fn notified(self, e: RSGEvent) -> ObserverState {
        match e {
            RSGEvent::SubtreeAddedOrReattached(k) => ObserverState {
                changed: true,
                hierarchy_changed: true,
                world: self.world.push(k),
                opacity: self.opacity.push(k),
                material: self.material.push(k),
                material_values: self.material_values.push(k),
                mesh: self.mesh.push(k),
            },
            RSGEvent::SubtreeAboutToBeRemoved(_) => ObserverState {
                changed: true,
                hierarchy_changed: true,
                ..self
            },
            RSGEvent::Dirty(k, f) => ObserverState {
                changed: true,
                hierarchy_changed: self.hierarchy_changed,
                world: Self::push_if(self.world, f.has(DIRTY_TRANSFORM), k),
                opacity: Self::push_if(self.opacity, f.has(DIRTY_OPACITY), k),
                material: Self::push_if(self.material, f.has(DIRTY_MATERIAL), k),
                material_values: Self::push_if(
                    self.material_values,
                    f.has(DIRTY_MATERIAL_VALUES),
                    k,
                ),
                mesh: Self::push_if(self.mesh, f.has(DIRTY_MESH), k),
            },
        }
    }

    /// The state of a fresh or reset observer.
    pub open spec fn empty() -> ObserverState {
        ObserverState {
            changed: false,
            hierarchy_changed: false,
            world: Seq::empty(),
            opacity: Seq::empty(),
            material: Seq::empty(),
            material_values: Seq::empty(),
            mesh: Seq::empty(),
        }
    }
}

/// The accumulating observer: whether anything changed, whether the hierarchy
/// changed, and for each dirty category the roots of the subtrees to recompute.
/// Roots are not deduplicated.
pub struct RSGSceneObserver {
    pub changed: bool,
    pub hierarchy_changed: bool,
    pub dirty_world_roots: Vec<Key>,
    pub dirty_opacity_roots: Vec<Key>,
    pub dirty_material_roots: Vec<Key>,
    pub dirty_material_value_roots: Vec<Key>,
    pub dirty_mesh_roots: Vec<Key>,
}

impl View for RSGSceneObserver {
    type V = ObserverState;

    open spec fn view(&self) -> ObserverState {
        ObserverState {
            changed: self.changed,
            hierarchy_changed: self.hierarchy_changed,
            world: self.dirty_world_roots@,
            opacity: self.dirty_opacity_roots@,
            material: self.dirty_material_roots@,
            material_values: self.dirty_material_value_roots@,
            mesh: self.dirty_mesh_roots@,
        }
    }
}

impl RSGSceneObserver {
    /// An observer that has seen nothing.
    pub fn new() -> (r: Self)
        ensures
            r@ == ObserverState::empty(),
    {
        RSGSceneObserver {
            changed: false,
            hierarchy_changed: false,
            dirty_world_roots: Vec::new(),
            dirty_opacity_roots: Vec::new(),
            dirty_material_roots: Vec::new(),
            dirty_material_value_roots: Vec::new(),
            dirty_mesh_roots: Vec::new(),
        }
    }

    /// Forgets everything accumulated.
    pub fn reset(&mut self)
        ensures
            final(self)@ == ObserverState::empty(),
    {
        self.changed = false;
        self.hierarchy_changed = false;
        self.dirty_world_roots.clear();
        self.dirty_opacity_roots.clear();
        self.dirty_material_roots.clear();
        self.dirty_material_value_roots.clear();
        self.dirty_mesh_roots.clear();
    }

    /// Records one event. A newly attached subtree is stale in every category; a
    /// `Dirty` event goes to the list of each category whose flag is set.
    pub fn notify(&mut self, event: RSGEvent)
        ensures
            final(self)@ == old(self)@.notified(event),
    {
        self.changed = true;
        match event {
            RSGEvent::SubtreeAddedOrReattached(k) => {
                self.hierarchy_changed = true;
                self.dirty_world_roots.push(k);
                self.dirty_opacity_roots.push(k);
                self.dirty_material_roots.push(k);
                self.dirty_material_value_roots.push(k);
                self.dirty_mesh_roots.push(k);
            },
            RSGEvent::SubtreeAboutToBeRemoved(_) => {
                self.hierarchy_changed = true;
            },
            RSGEvent::Dirty(k, flags) => {
                if flags.contains(RSGDirtyFlags::transform()) {
                    self.dirty_world_roots.push(k);
                }
                if flags.contains(RSGDirtyFlags::opacity()) {
                    self.dirty_opacity_roots.push(k);
                }
                if flags.contains(RSGDirtyFlags::material()) {
                    self.dirty_material_roots.push(k);
                }
                if flags.contains(RSGDirtyFlags::material_values()) {
                    self.dirty_material_value_roots.push(k);
                }
                if flags.contains(RSGDirtyFlags::mesh()) {
                    self.dirty_mesh_roots.push(k);
                }
            },
        }
    }
}

} // verus!
