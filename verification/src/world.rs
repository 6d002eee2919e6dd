//! The registry of scene objects.
//!
//! An object is named by its index in the registry. Each kind of state that
//! an object may carry is an optional part of its record.

use vstd::prelude::*;
use crate::assets::ImageHandle;
use crate::geometry::{Placement, Point2, Scale2, SCALE_ONE};
use crate::interact::drag::{Draggable, Dragged};
use crate::interact::interact::Interactable;
use crate::world::clothes::{ItemState, Rope};

pub mod clothes;
pub mod plugin;

verus! {

/// Names an object: its index in the registry.
pub type ObjectId = usize;

/// The image that an object shows.
#[derive(Clone, Copy, Debug, PartialEq, Eq, Structural)]
pub struct Sprite {
    pub image: ImageHandle,
}

/// One object of the scene.
#[derive(Clone, Debug)]
pub struct Object {
    /// The object's position and scale within its parent.
    pub transform: Placement,
    /// The object's depth, which no interaction changes.
    pub depth: i64,
    /// The parent's placement in the world; the identity for a root.
    pub parent: Placement,
    pub interactable: Option<Interactable>,
    pub draggable: Option<Draggable>,
    pub dragged: Option<Dragged>,
    pub item: Option<ItemState>,
    pub sprite: Option<Sprite>,
    pub rope: Option<Rope>,
}

/// The objects of a scene, each at the index that names it.
#[derive(Clone, Debug)]
pub struct Scene {
    pub objects: Vec<Object>,
}

impl Object {
    /// The object's placement in the world: its own placement carried out of
    /// its parent.
    pub open spec fn world(self) -> Placement {
        self.parent.composed(self.transform)
    }

    /// The object with the components of `self` and its position set to `to`.
    pub open spec fn moved_to(self, to: Point2) -> Object {
        Object { transform: Placement { translation: to, scale: self.transform.scale }, ..self }
    }

    /// A root object of unit scale at `translation` that carries no state.
    pub fn new(translation: Point2) -> (o: Object)
        ensures
            o.transform == (Placement { translation, scale: Scale2::one() }),
            o.depth == 0,
            o.parent == Placement::identity_spec(),
            o.interactable is None,
            o.draggable is None,
            o.dragged is None,
            o.item is None,
            o.sprite is None,
            o.rope is None,
    {
        Object {
            transform: Placement { translation, scale: Scale2 { x: SCALE_ONE, y: SCALE_ONE } },
            depth: 0,
            parent: Placement::identity(),
            interactable: None,
            draggable: None,
            dragged: None,
            item: None,
            sprite: None,
            rope: None,
        }
    }

    /// The object's placement in the world.
    pub fn global_transform(&self) -> (p: Placement)
        ensures
            p == self.world(),
    {
        self.parent.compose(&self.transform)
    }
}

impl Scene {
    /// A scene without objects.
    pub fn new() -> (s: Scene)
        ensures
            s.objects@.len() == 0,
    {
        Scene { objects: Vec::new() }
    }

    /// Adds `object` to the scene and returns the identifier under which it is
    /// found from now on. The objects already there keep theirs.
    pub fn spawn(&mut self, object: Object) -> (id: ObjectId)
        ensures
            id == old(self).objects@.len(),
            final(self).objects@ == old(self).objects@.push(object),
    {
        let id: usize = self.objects.len();
        self.objects.push(object);
        id
    }

    /// The number of objects.
    pub fn len(&self) -> (n: usize)
        ensures
            n == self.objects@.len(),
    {
        self.objects.len()
    }
}

} // verus!
