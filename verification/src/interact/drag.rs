//! Picking an object up, carrying it with the pointer and dropping it.

use vstd::prelude::*;
use crate::geometry::{Placement, Point2};
use crate::interact::interact::{
    find_hit, hit_position, ButtonInput, Group, InteractionState, Snapshot,
};
use crate::world::{Object, ObjectId, Scene};

verus! {

/// The state of an object while it is being dragged. It is attached when the
/// object is grabbed and taken away when the object is released.
#[derive(Clone, Copy, Debug, PartialEq, Eq, Structural)]
pub struct Dragged {
    /// The group whose pointer carries the object.
    pub group: Group,
    /// Where the object sits relative to the pointer, in world units.
    pub translation: Point2,
    /// The object's position when it was grabbed.
    pub origin: Point2,
    /// Set on release, unless the object was grabbed in the same frame.
    pub just_dropped: bool,
    /// Set while the frame in which the object was grabbed lasts.
    pub just_dragged: bool,
}

/// What happens to a dragged object's position when it is released.
#[derive(Clone, Copy, Debug, PartialEq, Eq, Structural)]
pub enum DropStrategy {
    /// The object goes back to where it was grabbed.
    Reset,
    /// The object stays where it was carried.
    Leave,
}

/// Makes an object eligible for dragging.
#[derive(Clone, Debug)]
pub struct Draggable {
    /// Where the object hooks onto the pointer while it is dragged. Without a
    /// hook the object keeps the offset to the pointer that it had when the
    /// drag started.
    pub hook: Option<Point2>,
    /// The groups whose pointer may grab the object, in order of preference.
    pub groups: Vec<Group>,
    pub drop_strategy: DropStrategy,
    /// Keeps the object at the height at which it was grabbed.
    pub lock_y: bool,
}

impl Default for Draggable {
    /// An object that the default group may drag freely, that hangs on the
    /// pointer where it was grabbed, and that stays where it is dropped.
    fn default() -> (handle: Draggable)
        ensures
            handle.hook is None,
            handle.groups@ == seq![Group(0)],
            handle.drop_strategy == DropStrategy::Leave,
            !handle.lock_y,
    {
        Draggable {
            hook: None,
            groups: vec![Group(0)],
            drop_strategy: DropStrategy::Leave,
            lock_y: false,
        }
    }
}

impl Dragged {
    /// Whether the object was dropped in this frame, after a drag that lasted
    /// longer than the frame in which it began.
    pub fn just_dropped(&self) -> (b: bool)
        ensures
            b == self.just_dropped,
    {
        self.just_dropped
    }

    /// Whether the object was grabbed in this frame.
    pub fn just_dragged(&self) -> (b: bool)
        ensures
            b == self.just_dragged,
    {
        self.just_dragged
    }

    /// The state that a drag ends with: dropped, unless the drag began in the
    /// same frame.
    pub open spec fn ended(self) -> Dragged {
        Dragged { just_dropped: self.just_dropped || !self.just_dragged, ..self }
    }
}

/// The first of the first `n` of `groups` in whose hits the object `id` is
/// listed, with the position recorded there.
pub open spec fn grab_group(groups: Seq<Group>, n: int, id: ObjectId, state: Snapshot)
    -> Option<(Group, Point2)>
    decreases n,
{
    if n <= 0 {
        None
    } else {
        match grab_group(groups, n - 1, id, state) {
            Some(found) => Some(found),
            None => match hit_position(state.hits(groups[n - 1]), id) {
                Some(position) => Some((groups[n - 1], position)),
                None => None,
            },
        }
    }
}

/// The group that binds is the first one, in the order of `groups`, in which
/// the object is under the pointer; without such a group nothing binds.
pub proof fn lemma_grab_group(groups: Seq<Group>, n: int, id: ObjectId, state: Snapshot)
    requires
        0 <= n <= groups.len(),
    ensures
        match grab_group(groups, n, id, state) {
            Some((group, position)) => exists|k: int|
                0 <= k < n && #[trigger] groups[k] == group && hit_position(
                    state.hits(group),
                    id,
                ) == Some(position) && forall|j: int|
                    0 <= j < k ==> hit_position(state.hits(#[trigger] groups[j]), id) is None,
            None => forall|k: int|
                0 <= k < n ==> hit_position(state.hits(#[trigger] groups[k]), id) is None,
        },
    decreases n,
{
    if n > 0 {
        lemma_grab_group(groups, n - 1, id, state);
        if grab_group(groups, n - 1, id, state) is None {
            if hit_position(state.hits(groups[n - 1]), id) is Some {
                assert(groups[n - 1] == groups[n - 1]);
            }
        }
    }
}

/// Once a group has bound, the groups after it change nothing.
pub proof fn lemma_grab_group_stays(
    groups: Seq<Group>,
    k: int,
    n: int,
    id: ObjectId,
    state: Snapshot,
)
    requires
        k <= n,
        grab_group(groups, k, id, state) is Some,
    ensures
        grab_group(groups, n, id, state) == grab_group(groups, k, id, state),
    decreases n - k,
{
    if k < n {
        lemma_grab_group_stays(groups, k, n - 1, id, state);
    }
}

impl Object {
    /// The drag that a press starts on this object, known as `id`, if it
    /// starts one.
    ///
    /// The object must be draggable and interactable, must not be dragged
    /// already, and must be under the pointer in one of its drag groups. The
    /// first such group, in the order in which the object names them, binds.
    /// The object hangs on the pointer by its hook, or else by the offset
    /// that it has from the recorded pointer position at this moment, and
    /// remembers its position.
    pub open spec fn grabbed(self, id: ObjectId, state: Snapshot) -> Option<Dragged> {
        match (self.draggable, self.interactable, self.dragged) {
            (Some(handle), Some(_), None) => match grab_group(
                handle.groups@,
                handle.groups@.len() as int,
                id,
                state,
            ) {
                Some((group, position)) => Some(
                    Dragged {
                        group,
                        translation: match handle.hook {
                            Some(hook) => hook,
                            None => self.world().translation.minus(position),
                        },
                        origin: self.transform.translation,
                        just_dropped: false,
                        just_dragged: true,
                    },
                ),
                None => None,
            },
            _ => None,
        }
    }

    /// The object after a press.
    pub open spec fn after_press(self, id: ObjectId, state: Snapshot) -> Object {
        match self.grabbed(id, state) {
            Some(drag) => Object { dragged: Some(drag), ..self },
            None => self,
        }
    }

    /// Where a dragged object belongs while the pointer of its group is at
    /// `cursor`: at the pointer plus the drag's offset, seen from the
    /// object's parent; with the height locked, at the height at which it was
    /// grabbed.
    pub open spec fn drag_target(self, drag: Dragged, lock_y: bool, cursor: Point2) -> Point2
        recommends
            self.parent.is_invertible(),
    {
        let local = self.parent.to_local(cursor.plus(drag.translation));
        Point2 {
            x: local.x,
            y: if lock_y {
                drag.origin.y
            } else {
                local.y
            },
        }
    }

    /// The object after a frame of dragging.
    ///
    /// A dragged object is no longer freshly grabbed. It moves to its target
    /// where the pointer of its group has a position and the parent's
    /// placement can be inverted, and stays where it is otherwise.
    pub open spec fn carried(self, state: Snapshot) -> Object {
        match (self.dragged, self.draggable) {
            (Some(drag), Some(handle)) => {
                let to = if state.cursors.contains_key(drag.group.0)
                    && self.parent.is_invertible() {
                    self.drag_target(drag, handle.lock_y, state.cursors[drag.group.0])
                } else {
                    self.transform.translation
                };
                Object {
                    dragged: Some(Dragged { just_dragged: false, ..drag }),
                    transform: Placement { translation: to, scale: self.transform.scale },
                    ..self
                }
            },
            _ => self,
        }
    }

    /// Whether a release ends a drag of this object.
    pub open spec fn is_released(self) -> bool {
        self.draggable is Some && self.dragged is Some && self.interactable is Some
    }

    /// The object after a release: the drag is gone, and with the drop
    /// strategy `Reset` the object is back where it was grabbed.
    pub open spec fn after_release(self) -> Object {
        match (self.draggable, self.dragged, self.interactable) {
            (Some(handle), Some(drag), Some(_)) => {
                let to = match handle.drop_strategy {
                    DropStrategy::Reset => drag.origin,
                    DropStrategy::Leave => self.transform.translation,
                };
                Object {
                    dragged: None,
                    transform: Placement { translation: to, scale: self.transform.scale },
                    ..self
                }
            },
            _ => self,
        }
    }

    /// Works out the drag that a press starts on this object, known as `id`.
    pub fn grab(&self, id: ObjectId, state: &InteractionState) -> (drag: Option<Dragged>)
        ensures
            drag == self.grabbed(id, state@),
    {
        match (&self.draggable, &self.interactable, &self.dragged) {
            (Some(handle), Some(_), None) => {
                let mut k: usize = 0;
                while k < handle.groups.len()
                    invariant
                        k <= handle.groups.len(),
                        self.draggable == Some(*handle),
                        self.interactable is Some,
                        self.dragged is None,
                        grab_group(handle.groups@, k as int, id, state@) is None,
                    decreases handle.groups.len() - k,
                {
                    let group: Group = handle.groups[k];
                    let found: Option<Point2> = match state.ordered_interact_list_map.get(
                        &group.0,
                    ) {
                        Some(list) => find_hit(list, id),
                        None => None,
                    };
                    match found {
                        Some(position) => {
                            proof {
                                lemma_grab_group_stays(
                                    handle.groups@,
                                    k + 1,
                                    handle.groups@.len() as int,
                                    id,
                                    state@,
                                );
                            }
                            let translation: Point2 = match handle.hook {
                                Some(hook) => hook,
                                None => self.global_transform().translation.saturating_sub(
                                    position,
                                ),
                            };
                            return Some(
                                Dragged {
                                    group,
                                    translation,
                                    origin: self.transform.translation,
                                    just_dropped: false,
                                    just_dragged: true,
                                },
                            );
                        },
                        None => {},
                    }
                    k += 1;
                }
                None
            },
            _ => None,
        }
    }
}

/// The scene after a press, where `button` tells of one: every object on
/// which the press starts a drag is bound to the pointer.
pub open spec fn pressed_scene(objects: Seq<Object>, state: Snapshot, button: ButtonInput) -> Seq<
    Object,
> {
    if button.just_pressed {
        Seq::new(objects.len(), |i: int| objects[i].after_press(i as usize, state))
    } else {
        objects
    }
}

/// The scene after a frame of dragging.
pub open spec fn carried_scene(objects: Seq<Object>, state: Snapshot) -> Seq<Object> {
    Seq::new(objects.len(), |i: int| objects[i].carried(state))
}

/// The scene after a release, where `button` tells of one.
pub open spec fn released_scene(objects: Seq<Object>, button: ButtonInput) -> Seq<Object> {
    if button.just_released {
        Seq::new(objects.len(), |i: int| objects[i].after_release())
    } else {
        objects
    }
}

/// The drags that a release ends, where `button` tells of one.
pub open spec fn drops(objects: Seq<Object>, button: ButtonInput) -> Seq<(ObjectId, Dragged)> {
    if button.just_released {
        drops_among(objects, objects.len() as int)
    } else {
        Seq::empty()
    }
}

/// Those of the first `n` objects that a release lets go of, in the order of
/// the registry, each with the state that its drag ended with.
pub open spec fn drops_among(objects: Seq<Object>, n: int) -> Seq<(ObjectId, Dragged)>
    decreases n,
{
    if n <= 0 {
        Seq::empty()
    } else {
        let before = drops_among(objects, n - 1);
        if objects[n - 1].is_released() {
            before.push(((n - 1) as usize, objects[n - 1].dragged->0.ended()))
        } else {
            before
        }
    }
}

/// The object after one frame of dragging for each of `frames`, in order.
pub open spec fn carried_through(object: Object, frames: Seq<Snapshot>) -> Object
    decreases frames.len(),
{
    if frames.len() == 0 {
        object
    } else {
        carried_through(object, frames.drop_last()).carried(frames.last())
    }
}

/// Dragging changes an object's position and clears the mark of a fresh grab;
/// everything else stays, and so does the position at which it was grabbed.
pub proof fn lemma_carried_through_keeps(object: Object, frames: Seq<Snapshot>)
    requires
        object.dragged is Some,
    ensures
        carried_through(object, frames).dragged is Some,
        carried_through(object, frames).dragged->0.origin == object.dragged->0.origin,
        carried_through(object, frames).dragged->0.group == object.dragged->0.group,
        carried_through(object, frames).dragged->0.translation == object.dragged->0.translation,
        carried_through(object, frames).dragged->0.just_dropped == object.dragged->0.just_dropped,
        frames.len() > 0 && object.draggable is Some ==> !carried_through(
            object,
            frames,
        ).dragged->0.just_dragged,
        carried_through(object, frames).draggable == object.draggable,
        carried_through(object, frames).interactable == object.interactable,
        carried_through(object, frames).parent == object.parent,
        carried_through(object, frames).depth == object.depth,
        carried_through(object, frames).transform.scale == object.transform.scale,
        carried_through(object, frames).item == object.item,
        carried_through(object, frames).sprite == object.sprite,
        carried_through(object, frames).rope == object.rope,
    decreases frames.len(),
{
    if frames.len() > 0 {
        lemma_carried_through_keeps(object, frames.drop_last());
    }
}

/// An object that is grabbed and released in one frame is not reported as
/// just dropped.
pub proof fn lemma_click_is_no_drop(object: Object, id: ObjectId, state: Snapshot)
    requires
        object.grabbed(id, state) is Some,
    ensures
        object.after_press(id, state).is_released(),
        !object.after_press(id, state).dragged->0.ended().just_dropped,
        object.after_press(id, state).after_release().dragged is None,
{
}

/// An object that is released after at least one frame of dragging is
/// reported as just dropped.
pub proof fn lemma_drag_ends_in_drop(
    object: Object,
    id: ObjectId,
    state: Snapshot,
    frames: Seq<Snapshot>,
)
    requires
        object.grabbed(id, state) is Some,
        frames.len() > 0,
    ensures
        carried_through(object.after_press(id, state), frames).is_released(),
        carried_through(object.after_press(id, state), frames).dragged->0.ended().just_dropped,
{
    lemma_carried_through_keeps(object.after_press(id, state), frames);
}

/// With the drop strategy `Reset`, an object that is grabbed, dragged through
/// any frames and released is exactly where it was grabbed, at its depth.
pub proof fn lemma_reset_returns_to_origin(
    object: Object,
    id: ObjectId,
    state: Snapshot,
    frames: Seq<Snapshot>,
)
    requires
        object.grabbed(id, state) is Some,
        object.draggable->0.drop_strategy is Reset,
    ensures
        carried_through(object.after_press(id, state), frames).after_release().transform
            == object.transform,
        carried_through(object.after_press(id, state), frames).after_release().depth
            == object.depth,
        carried_through(object.after_press(id, state), frames).after_release().dragged is None,
{
    lemma_carried_through_keeps(object.after_press(id, state), frames);
}

/// With the height locked, an object keeps the height at which it was grabbed
/// through every frame of the drag, wherever the pointer goes.
pub proof fn lemma_locked_height_is_kept(
    object: Object,
    id: ObjectId,
    state: Snapshot,
    frames: Seq<Snapshot>,
)
    requires
        object.grabbed(id, state) is Some,
        object.draggable->0.lock_y,
    ensures
        carried_through(object.after_press(id, state), frames).transform.translation.y
            == object.transform.translation.y,
    decreases frames.len(),
{
    if frames.len() > 0 {
        lemma_locked_height_is_kept(object, id, state, frames.drop_last());
        lemma_carried_through_keeps(object.after_press(id, state), frames.drop_last());
    }
}

/// Starts drags. In a frame in which the button went down, every object on
/// which a press starts a drag is bound to the pointer; the others, and every
/// object in any other frame, stay as they are.
pub fn mouse_press_start_drag_system(
    state: &InteractionState,
    button: &ButtonInput,
    scene: &mut Scene,
)
    ensures
        final(scene).objects@ == pressed_scene(old(scene).objects@, state@, *button),
{
    if !button.just_pressed {
        return ;
    }
    let mut i: usize = 0;
    while i < scene.objects.len()
        invariant
            i <= scene.objects.len(),
            scene.objects@.len() == old(scene).objects@.len(),
            forall|j: int|
                0 <= j < i ==> #[trigger] scene.objects@[j] == old(scene).objects@[j].after_press(
                    j as usize,
                    state@,
                ),
            forall|j: int|
                i <= j < scene.objects@.len() ==> #[trigger] scene.objects@[j] == old(
                    scene,
                ).objects@[j],
        decreases scene.objects.len() - i,
    {
        match scene.objects[i].grab(i, state) {
            Some(drag) => {
                scene.objects[i].dragged = Some(drag);
            },
            None => {},
        }
        i += 1;
    }
    assert(scene.objects@ =~= pressed_scene(old(scene).objects@, state@, *button));
}

/// Carries every dragged object along with the pointer of its group.
pub fn drag_system(state: &InteractionState, scene: &mut Scene)
    ensures
        final(scene).objects@ == carried_scene(old(scene).objects@, state@),
{
    let mut i: usize = 0;
    while i < scene.objects.len()
        invariant
            i <= scene.objects.len(),
            scene.objects@.len() == old(scene).objects@.len(),
            forall|j: int|
                0 <= j < i ==> #[trigger] scene.objects@[j] == old(scene).objects@[j].carried(
                    state@,
                ),
            forall|j: int|
                i <= j < scene.objects@.len() ==> #[trigger] scene.objects@[j] == old(
                    scene,
                ).objects@[j],
        decreases scene.objects.len() - i,
    {
        let lock_y: Option<bool> = match &scene.objects[i].draggable {
            Some(handle) => Some(handle.lock_y),
            None => None,
        };
        match (scene.objects[i].dragged, lock_y) {
            (Some(drag), Some(lock_y)) => {
                scene.objects[i].dragged = Some(Dragged { just_dragged: false, ..drag });
                match state.cursor_positions.get(&drag.group.0) {
                    Some(cursor) => {
                        let goal: Point2 = cursor.saturating_add(drag.translation);
                        match scene.objects[i].parent.inverse_transform_point(goal) {
                            Some(local) => {
                                let y: i64 = if lock_y {
                                    drag.origin.y
                                } else {
                                    local.y
                                };
                                scene.objects[i].transform.translation = Point2 { x: local.x, y };
                            },
                            None => {},
                        }
                    },
                    None => {},
                }
            },
            _ => {},
        }
        i += 1;
    }
    assert(scene.objects@ =~= carried_scene(old(scene).objects@, state@));
}

/// Ends drags. In a frame in which the button came up, every object that is
/// dragged, draggable and interactable is let go: it loses its drag state,
/// and with the drop strategy `Reset` it returns to where it was grabbed,
/// keeping its depth. The drags that ended are returned in the order of
/// the registry, each marked as just dropped unless it began in this very
/// frame. In any other frame nothing changes and nothing is returned.
pub fn mouse_release_stop_drag_system(button: &ButtonInput, scene: &mut Scene) -> (dropped: Vec<
    (ObjectId, Dragged),
>)
    ensures
        final(scene).objects@ == released_scene(old(scene).objects@, *button),
        dropped@ == drops(old(scene).objects@, *button),
{
    let mut dropped: Vec<(ObjectId, Dragged)> = Vec::new();
    if !button.just_released {
        return dropped;
    }
    let mut i: usize = 0;
    while i < scene.objects.len()
        invariant
            i <= scene.objects.len(),
            scene.objects@.len() == old(scene).objects@.len(),
            dropped@ == drops_among(old(scene).objects@, i as int),
            forall|j: int|
                0 <= j < i ==> #[trigger] scene.objects@[j] == old(
                    scene,
                ).objects@[j].after_release(),
            forall|j: int|
                i <= j < scene.objects@.len() ==> #[trigger] scene.objects@[j] == old(
                    scene,
                ).objects@[j],
        decreases scene.objects.len() - i,
    {
        let strategy: Option<DropStrategy> = match &scene.objects[i].draggable {
            Some(handle) => Some(handle.drop_strategy),
            None => None,
        };
        let interactable: bool = scene.objects[i].interactable.is_some();
        match (strategy, scene.objects[i].dragged) {
            (Some(strategy), Some(drag)) => {
                if interactable {
                    let mut drag: Dragged = drag;
                    if !drag.just_dragged {
                        drag.just_dropped = true;
                    }
                    match strategy {
                        DropStrategy::Reset => {
                            scene.objects[i].transform.translation = drag.origin;
                        },
                        DropStrategy::Leave => {},
                    }
                    scene.objects[i].dragged = None;
                    dropped.push((i, drag));
                }
            },
            _ => {},
        }
        i += 1;
    }
    assert(scene.objects@ =~= released_scene(old(scene).objects@, *button));
    dropped
}

/// The drags' part of a frame.
pub struct DragPlugin;

/// The scene after the drags' part of a frame: dragged objects are carried,
/// then a press binds and a release lets go.
pub open spec fn dragged_scene(objects: Seq<Object>, state: Snapshot, button: ButtonInput) -> Seq<
    Object,
> {
    released_scene(pressed_scene(carried_scene(objects, state), state, button), button)
}

/// The drags that end in a frame.
pub open spec fn frame_drops(objects: Seq<Object>, state: Snapshot, button: ButtonInput) -> Seq<
    (ObjectId, Dragged),
> {
    drops(pressed_scene(carried_scene(objects, state), state, button), button)
}

impl DragPlugin {
    /// Runs the drags' part of a frame. The objects that are dragged already
    /// follow the pointer first; then a press starts drags and a release ends
    /// them. So an object counts as just grabbed until the next frame carries
    /// it, and a drag that starts and ends in this frame is no drop. The
    /// drags that ended are returned.
    pub fn update(state: &InteractionState, button: &ButtonInput, scene: &mut Scene) -> (dropped:
        Vec<(ObjectId, Dragged)>)
        ensures
            final(scene).objects@ == dragged_scene(old(scene).objects@, state@, *button),
            dropped@ == frame_drops(old(scene).objects@, state@, *button),
    {
        drag_system(state, scene);
        mouse_press_start_drag_system(state, button, scene);
        mouse_release_stop_drag_system(button, scene)
    }
}

} // verus!
